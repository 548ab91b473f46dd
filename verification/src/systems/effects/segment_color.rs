//! Segment colors for electric arcs and particles, and their cells in the
//! arrows texture atlas.
use vstd::prelude::*;
use super::rng::{Rng, xorshift64};

verus! {

/// The 13 colors of the arrows texture atlas, in wire order.
#[derive(Debug, Clone, Copy, PartialEq, Eq, Structural)]
pub enum SegmentColor {
    Red,
    Orange,
    Yellow,
    LimeGreen,
    Green,
    GreenCyan,
    Cyan,
    SkyBlue,
    Blue,
    Indigo,
    Magenta,
    Pink,
    White,
}

/// Color at position `i` of `SegmentColor::ALL` (wire number `i`).
pub open spec fn color_at(i: int) -> SegmentColor {
    if i == 0 {
        SegmentColor::Red
    } else if i == 1 {
        SegmentColor::Orange
    } else if i == 2 {
        SegmentColor::Yellow
    } else if i == 3 {
        SegmentColor::LimeGreen
    } else if i == 4 {
        SegmentColor::Green
    } else if i == 5 {
        SegmentColor::GreenCyan
    } else if i == 6 {
        SegmentColor::Cyan
    } else if i == 7 {
        SegmentColor::SkyBlue
    } else if i == 8 {
        SegmentColor::Blue
    } else if i == 9 {
        SegmentColor::Indigo
    } else if i == 10 {
        SegmentColor::Magenta
    } else if i == 11 {
        SegmentColor::Pink
    } else {
        SegmentColor::White
    }
}

/// Wire number of a color (its position in `SegmentColor::ALL`).
pub open spec fn color_index(c: SegmentColor) -> int {
    match c {
        SegmentColor::Red => 0,
        SegmentColor::Orange => 1,
        SegmentColor::Yellow => 2,
        SegmentColor::LimeGreen => 3,
        SegmentColor::Green => 4,
        SegmentColor::GreenCyan => 5,
        SegmentColor::Cyan => 6,
        SegmentColor::SkyBlue => 7,
        SegmentColor::Blue => 8,
        SegmentColor::Indigo => 9,
        SegmentColor::Magenta => 10,
        SegmentColor::Pink => 11,
        SegmentColor::White => 12,
    }
}

/// Atlas cell (column, row block) of a color's arrow graphic.
pub open spec fn color_cell(c: SegmentColor) -> (u32, u32) {
    match c {
        SegmentColor::Red => (0, 5),
        SegmentColor::Orange => (1, 5),
        SegmentColor::Yellow => (2, 5),
        SegmentColor::LimeGreen => (3, 5),
        SegmentColor::Green => (0, 4),
        SegmentColor::GreenCyan => (1, 4),
        SegmentColor::Cyan => (2, 4),
        SegmentColor::SkyBlue => (3, 4),
        SegmentColor::Blue => (0, 3),
        SegmentColor::Indigo => (1, 3),
        SegmentColor::Magenta => (2, 3),
        SegmentColor::Pink => (3, 3),
        SegmentColor::White => (3, 2),
    }
}

impl SegmentColor {
    pub const ALL: [SegmentColor; 13] = [
        SegmentColor::Red,
        SegmentColor::Orange,
        SegmentColor::Yellow,
        SegmentColor::LimeGreen,
        SegmentColor::Green,
        SegmentColor::GreenCyan,
        SegmentColor::Cyan,
        SegmentColor::SkyBlue,
        SegmentColor::Blue,
        SegmentColor::Indigo,
        SegmentColor::Magenta,
        SegmentColor::Pink,
        SegmentColor::White,
    ];

    /// A color drawn from the generator: `ALL[next_int(13)]`.
    pub fn random(rng: &mut Rng) -> (r: SegmentColor)
        ensures
            final(rng).state() == xorshift64(old(rng).state()),
            r == color_at((xorshift64(old(rng).state()) % 13) as int),
    {
        let i = rng.next_int(13);
        let all = SegmentColor::ALL;
        all[i as usize]
    }

    /// The color's wire number (its position in `ALL`).
    pub fn as_u8(self) -> (r: u8)
        ensures
            r == color_index(self),
            r < 13,
            color_at(r as int) == self,
    {
        match self {
            SegmentColor::Red => 0,
            SegmentColor::Orange => 1,
            SegmentColor::Yellow => 2,
            SegmentColor::LimeGreen => 3,
            SegmentColor::Green => 4,
            SegmentColor::GreenCyan => 5,
            SegmentColor::Cyan => 6,
            SegmentColor::SkyBlue => 7,
            SegmentColor::Blue => 8,
            SegmentColor::Indigo => 9,
            SegmentColor::Magenta => 10,
            SegmentColor::Pink => 11,
            SegmentColor::White => 12,
        }
    }

    /// Column and row block of this color's cell in the arrows atlas
    /// (16 cells per row); the texture coordinates are derived from it.
    pub fn atlas_cell(self) -> (r: (u32, u32))
        ensures
            r == color_cell(self),
            r.0 < 4,
            2 <= r.1 <= 5,
            color_index(self) < 12 ==> r.0 == color_index(self) % 4 && r.1 == 5 - color_index(self) / 4,
            self == SegmentColor::White ==> r == (3u32, 2u32),
    {
        match self {
            SegmentColor::Red => (0, 5),
            SegmentColor::Orange => (1, 5),
            SegmentColor::Yellow => (2, 5),
            SegmentColor::LimeGreen => (3, 5),
            SegmentColor::Green => (0, 4),
            SegmentColor::GreenCyan => (1, 4),
            SegmentColor::Cyan => (2, 4),
            SegmentColor::SkyBlue => (3, 4),
            SegmentColor::Blue => (0, 3),
            SegmentColor::Indigo => (1, 3),
            SegmentColor::Magenta => (2, 3),
            SegmentColor::Pink => (3, 3),
            SegmentColor::White => (3, 2),
        }
    }
}

/// Wire numbers and colors are inverse to each other.
pub proof fn lemma_color_index_round_trip(c: SegmentColor, i: int)
    ensures
        color_at(color_index(c)) == c,
        0 <= i < 13 ==> color_index(color_at(i)) == i,
{
}

/// The arrows atlas lays the first twelve colors out four per row block,
/// in wire order, from row block 5 down to row block 3; White sits at
/// column 3 of row block 2. So distinct colors never share a cell.
pub proof fn lemma_color_cell_layout(c: SegmentColor, d: SegmentColor)
    ensures
        color_index(c) < 12 ==> color_cell(c).0 == color_index(c) % 4 && color_cell(c).1 == 5
            - color_index(c) / 4,
        color_cell(SegmentColor::White) == (3u32, 2u32),
        c != d ==> color_cell(c) != color_cell(d),
{
}

} // verus!
