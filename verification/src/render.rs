use vstd::prelude::*;

use crate::well::{dir_bits, has_down, has_left, has_right, has_up, Block, BlockDirections, Tile, Well, WELL_COLS, WELL_ROWS};

verus! {

/// The row of the tile sheet that holds a colour.
pub open spec fn spec_texture_index(block: Block) -> i32 {
    match block {
        Block::Red => 0,
        Block::Orange => 1,
        Block::Yellow => 2,
        Block::Green => 3,
        Block::Cyan => 4,
        Block::Blue => 5,
        Block::Purple => 6,
    }
}

/// The row of the tile sheet that holds a colour.
pub fn texture_index(block: Block) -> (i: i32)
    ensures
        i == spec_texture_index(block),
        0 <= i < 7,
{
    match block {
        Block::Red => 0,
        Block::Orange => 1,
        Block::Yellow => 2,
        Block::Green => 3,
        Block::Cyan => 4,
        Block::Blue => 5,
        Block::Purple => 6,
    }
}

/// Which of the eleven backgrounds a level shows: one per hundred levels,
/// the last from level 1000 on.
pub fn background_index(level: u32) -> (i: u32)
    ensures
        i == if level >= 1000 { 10 } else { level / 100 },
{
    if level >= 1000 {
        10
    } else {
        level / 100
    }
}

/// The numbers of the gravity and level read-out.
#[derive(Copy, Clone, Debug, PartialEq, Eq, Structural)]
pub struct ScoreText {
    /// Gravity is at least one row per tick.
    pub is_20g: bool,
    /// Gravity in rows per tick when `is_20g`, else in 1/128 rows per tick
    /// (halved, rounding toward zero).
    pub gravity_amount: i32,
    pub level: u32,
    /// The next multiple of 100 above the level.
    pub level_cap: u32,
}

/// What the read-out shows for a gravity and a level.
pub fn score_numbers(gravity: i32, level: u32) -> (s: ScoreText)
    requires
        (level / 100 + 1) * 100 <= u32::MAX,
    ensures
        s.is_20g == (gravity >= 256),
        s.gravity_amount == if gravity >= 256 {
            gravity / 256
        } else if gravity >= 0 {
            gravity / 2
        } else {
            -((-gravity) / 2)
        },
        s.level == level,
        s.level_cap == (level / 100 + 1) * 100,
{
    let is_20g = gravity >= 256;
    let gravity_amount = if !is_20g { gravity / 2 } else { gravity / 256 };
    ScoreText { is_20g, gravity_amount, level, level_cap: ((level / 100) + 1) * 100 }
}

/// The tile in the well at (`r`, `c`), if both are in range.
pub open spec fn tile_at(well: Well, r: int, c: int) -> Option<Tile> {
    if 0 <= r < WELL_ROWS && 0 <= c < WELL_COLS {
        well.blocks[r][c]
    } else {
        None
    }
}

/// The join bits of the neighbour at (`r`, `c`) if it is a tile of colour
/// `color`.
pub open spec fn same_color_neighbour(well: Well, r: int, c: int, color: Block) -> Option<BlockDirections> {
    match tile_at(well, r, c) {
        Some(t) => if t.color == color {
            Some(t.directions)
        } else {
            None
        },
        None => None,
    }
}

/// Whether (`r`, `c`) is a cell of the well that holds no tile.
pub open spec fn open_at(well: Well, r: int, c: int) -> bool {
    0 <= r < WELL_ROWS && 0 <= c < WELL_COLS && well.blocks[r][c].is_none()
}

/// The strokes of the stack's outline drawn on one tile: an edge on each
/// side that faces an open cell, and a corner dot where both edges of the
/// corner are closed but the diagonal cell is open.
#[derive(Copy, Clone, Debug, PartialEq, Eq, Structural)]
pub struct Outline {
    pub top: bool,
    pub bottom: bool,
    pub left: bool,
    pub right: bool,
    pub top_left: bool,
    pub top_right: bool,
    pub bottom_left: bool,
    pub bottom_right: bool,
}

/// The outline strokes of the tile at (`r`, `c`).
pub open spec fn spec_outline(well: Well, r: int, c: int) -> Outline {
    let top = open_at(well, r - 1, c);
    let bottom = open_at(well, r + 1, c);
    let left = open_at(well, r, c - 1);
    let right = open_at(well, r, c + 1);
    Outline {
        top,
        bottom,
        left,
        right,
        top_left: !left && !top && open_at(well, r - 1, c - 1),
        top_right: !right && !top && open_at(well, r - 1, c + 1),
        bottom_left: !left && !bottom && open_at(well, r + 1, c - 1),
        bottom_right: !right && !bottom && open_at(well, r + 1, c + 1),
    }
}

impl Well {
    fn neighbour(&self, r: usize, c: usize, dr: i32, dc: i32, color: Block) -> (n: Option<BlockDirections>)
        requires
            r < WELL_ROWS,
            c < WELL_COLS,
            -1 <= dr <= 1,
            -1 <= dc <= 1,
        ensures
            n == same_color_neighbour(*self, r + dr, c + dc, color),
    {
        let row_idx = r as i32 + dr;
        let col_idx = c as i32 + dc;
        if row_idx < 0 || col_idx < 0 || row_idx >= WELL_ROWS as i32 || col_idx >= WELL_COLS as i32 {
            None
        } else {
            match self.blocks[row_idx as usize][col_idx as usize] {
                Some(t) => if t.color == color {
                    Some(t.directions)
                } else {
                    None
                },
                None => None,
            }
        }
    }

    /// How the tile at (`r`, `c`) is drawn: each of its joins is kept only
    /// where the neighbour on that side has the same colour and joins back.
    pub fn tile_directions(&self, r: usize, c: usize) -> (d: Option<BlockDirections>)
        requires
            r < WELL_ROWS,
            c < WELL_COLS,
        ensures
            match self.blocks[r as int][c as int] {
                None => d is None,
                Some(t) => d matches Some(d) && d@ == dir_bits(
                    has_up(t.directions@) && (same_color_neighbour(*self, r - 1, c as int, t.color) matches Some(n) && has_down(n@)),
                    has_down(t.directions@) && (same_color_neighbour(*self, r + 1, c as int, t.color) matches Some(n) && has_up(n@)),
                    has_left(t.directions@) && (same_color_neighbour(*self, r as int, c - 1, t.color) matches Some(n) && has_right(n@)),
                    has_right(t.directions@) && (same_color_neighbour(*self, r as int, c + 1, t.color) matches Some(n) && has_left(n@)),
                ),
            },
    {
        match self.blocks[r][c] {
            None => None,
            Some(block) => {
                let up = self.neighbour(r, c, -1, 0, block.color);
                let down = self.neighbour(r, c, 1, 0, block.color);
                let left = self.neighbour(r, c, 0, -1, block.color);
                let right = self.neighbour(r, c, 0, 1, block.color);
                Some(block.directions.match_with(up, down, left, right))
            },
        }
    }

    /// Whether the cell offset by (`dx`, `dy`) from (`r`, `c`) is inside the
    /// well and empty: there the outline of the stack is drawn.
    pub fn open_beside(&self, r: usize, c: usize, dx: i32, dy: i32) -> (b: bool)
        requires
            r < WELL_ROWS,
            c < WELL_COLS,
            -1 <= dx <= 1,
            -1 <= dy <= 1,
        ensures
            b == open_at(*self, r + dy, c + dx),
    {
        let row_idx = r as i32 + dy;
        let col_idx = c as i32 + dx;
        if row_idx < 0 || col_idx < 0 {
            false
        } else if row_idx >= WELL_ROWS as i32 || col_idx >= WELL_COLS as i32 {
            false
        } else {
            self.blocks[row_idx as usize][col_idx as usize].is_none()
        }
    }

    /// The outline strokes of the tile at (`r`, `c`), or `None` for an empty
    /// cell, which has none.
    pub fn outline(&self, r: usize, c: usize) -> (o: Option<Outline>)
        requires
            r < WELL_ROWS,
            c < WELL_COLS,
        ensures
            self.blocks[r as int][c as int] is None ==> o is None,
            self.blocks[r as int][c as int] is Some ==> o == Some(spec_outline(*self, r as int, c as int)),
    {
        if self.blocks[r][c].is_none() {
            return None;
        }
        let top = self.open_beside(r, c, 0, -1);
        let bottom = self.open_beside(r, c, 0, 1);
        let left = self.open_beside(r, c, -1, 0);
        let right = self.open_beside(r, c, 1, 0);
        Some(Outline {
            top,
            bottom,
            left,
            right,
            top_left: !left && !top && self.open_beside(r, c, -1, -1),
            top_right: !right && !top && self.open_beside(r, c, 1, -1),
            bottom_left: !left && !bottom && self.open_beside(r, c, -1, 1),
            bottom_right: !right && !bottom && self.open_beside(r, c, 1, 1),
        })
    }
}

} // verus!
