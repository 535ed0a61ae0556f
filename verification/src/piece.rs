use vstd::prelude::*;

use crate::input::{Input, Inputs};
use crate::well::{dir_bits, Block, BlockDirections, Tile, Well, WELL_COLS, WELL_ROWS};

verus! {

/// One of the four orientations of a piece.
#[derive(Copy, Clone, Debug, PartialEq, Eq, Structural)]
pub enum Rotation {
    R0,
    R90,
    R180,
    R270,
}

/// The kind of a piece, which fixes its shape in each orientation.
#[derive(Copy, Clone, Debug, PartialEq, Eq, Structural)]
pub enum Rotations {
    IPiece,
    OPiece,
    TPiece,
    ZPiece,
    SPiece,
    JPiece,
    LPiece,
}

pub open spec fn spec_cw(r: Rotation) -> Rotation {
    match r {
        Rotation::R0 => Rotation::R90,
        Rotation::R90 => Rotation::R180,
        Rotation::R180 => Rotation::R270,
        Rotation::R270 => Rotation::R0,
    }
}

pub open spec fn spec_ccw(r: Rotation) -> Rotation {
    match r {
        Rotation::R0 => Rotation::R270,
        Rotation::R90 => Rotation::R0,
        Rotation::R180 => Rotation::R90,
        Rotation::R270 => Rotation::R180,
    }
}

/// Turning one way and then the other restores the orientation, and four
/// turns the same way make a full circle.
pub proof fn lemma_rotation_inverse(r: Rotation)
    ensures
        spec_cw(spec_ccw(r)) == r,
        spec_ccw(spec_cw(r)) == r,
        spec_cw(spec_cw(spec_cw(spec_cw(r)))) == r,
        spec_ccw(spec_ccw(spec_ccw(spec_ccw(r)))) == r,
{
}

impl Rotation {
    pub fn ccw(&self) -> (r: Rotation)
        ensures
            r == spec_ccw(*self),
    {
        match self {
            Rotation::R0 => Rotation::R270,
            Rotation::R90 => Rotation::R0,
            Rotation::R180 => Rotation::R90,
            Rotation::R270 => Rotation::R180,
        }
    }

    pub fn cw(&self) -> (r: Rotation)
        ensures
            r == spec_cw(*self),
    {
        match self {
            Rotation::R0 => Rotation::R90,
            Rotation::R90 => Rotation::R180,
            Rotation::R180 => Rotation::R270,
            Rotation::R270 => Rotation::R0,
        }
    }
}

/// The cells of one orientation of a piece, `map[row][column]`.
pub type PieceMap = Vec<Vec<bool>>;

/// The four orientations of one kind of piece.
pub struct PieceMaps {
    pub r0: PieceMap,
    pub r90: PieceMap,
    pub r180: PieceMap,
    pub r270: PieceMap,
}

#[verifier::opaque]
pub open spec fn shape(kind: Rotations, rot: Rotation) -> Seq<Seq<bool>> {
    match kind {
        Rotations::IPiece => match rot {
            Rotation::R0 => seq![seq![false, false, false, false], seq![true, true, true, true], seq![false, false, false, false], seq![false, false, false, false]],
            Rotation::R90 => seq![seq![false, false, true, false], seq![false, false, true, false], seq![false, false, true, false], seq![false, false, true, false]],
            Rotation::R180 => seq![seq![false, false, false, false], seq![true, true, true, true], seq![false, false, false, false], seq![false, false, false, false]],
            Rotation::R270 => seq![seq![false, false, true, false], seq![false, false, true, false], seq![false, false, true, false], seq![false, false, true, false]],
        },
        Rotations::OPiece => match rot {
            Rotation::R0 => seq![seq![false, false, false, false], seq![false, true, true, false], seq![false, true, true, false], seq![false, false, false, false]],
            Rotation::R90 => seq![seq![false, false, false, false], seq![false, true, true, false], seq![false, true, true, false], seq![false, false, false, false]],
            Rotation::R180 => seq![seq![false, false, false, false], seq![false, true, true, false], seq![false, true, true, false], seq![false, false, false, false]],
            Rotation::R270 => seq![seq![false, false, false, false], seq![false, true, true, false], seq![false, true, true, false], seq![false, false, false, false]],
        },
        Rotations::TPiece => match rot {
            Rotation::R0 => seq![seq![false, false, false], seq![true, true, true], seq![false, true, false]],
            Rotation::R90 => seq![seq![false, true, false], seq![true, true, false], seq![false, true, false]],
            Rotation::R180 => seq![seq![false, false, false], seq![false, true, false], seq![true, true, true]],
            Rotation::R270 => seq![seq![false, true, false], seq![false, true, true], seq![false, true, false]],
        },
        Rotations::ZPiece => match rot {
            Rotation::R0 => seq![seq![false, false, false], seq![true, true, false], seq![false, true, true]],
            Rotation::R90 => seq![seq![false, false, true], seq![false, true, true], seq![false, true, false]],
            Rotation::R180 => seq![seq![false, false, false], seq![true, true, false], seq![false, true, true]],
            Rotation::R270 => seq![seq![false, false, true], seq![false, true, true], seq![false, true, false]],
        },
        Rotations::SPiece => match rot {
            Rotation::R0 => seq![seq![false, false, false], seq![false, true, true], seq![true, true, false]],
            Rotation::R90 => seq![seq![true, false, false], seq![true, true, false], seq![false, true, false]],
            Rotation::R180 => seq![seq![false, false, false], seq![false, true, true], seq![true, true, false]],
            Rotation::R270 => seq![seq![true, false, false], seq![true, true, false], seq![false, true, false]],
        },
        Rotations::JPiece => match rot {
            Rotation::R0 => seq![seq![false, false, false], seq![true, true, true], seq![false, false, true]],
            Rotation::R90 => seq![seq![false, true, false], seq![false, true, false], seq![true, true, false]],
            Rotation::R180 => seq![seq![false, false, false], seq![true, false, false], seq![true, true, true]],
            Rotation::R270 => seq![seq![false, true, true], seq![false, true, false], seq![false, true, false]],
        },
        Rotations::LPiece => match rot {
            Rotation::R0 => seq![seq![false, false, false], seq![true, true, true], seq![true, false, false]],
            Rotation::R90 => seq![seq![true, true, false], seq![false, true, false], seq![false, true, false]],
            Rotation::R180 => seq![seq![false, false, false], seq![false, false, true], seq![true, true, true]],
            Rotation::R270 => seq![seq![false, true, false], seq![false, true, false], seq![false, true, true]],
        },
    }
}

pub open spec fn some_cell(kind: Rotations, rot: Rotation) -> (int, int) {
    match kind {
        Rotations::IPiece => match rot {
            Rotation::R0 => (1, 0),
            Rotation::R90 => (0, 2),
            Rotation::R180 => (1, 0),
            Rotation::R270 => (0, 2),
        },
        Rotations::OPiece => match rot {
            Rotation::R0 => (1, 1),
            Rotation::R90 => (1, 1),
            Rotation::R180 => (1, 1),
            Rotation::R270 => (1, 1),
        },
        Rotations::TPiece => match rot {
            Rotation::R0 => (1, 0),
            Rotation::R90 => (0, 1),
            Rotation::R180 => (1, 1),
            Rotation::R270 => (0, 1),
        },
        Rotations::ZPiece => match rot {
            Rotation::R0 => (1, 0),
            Rotation::R90 => (0, 2),
            Rotation::R180 => (1, 0),
            Rotation::R270 => (0, 2),
        },
        Rotations::SPiece => match rot {
            Rotation::R0 => (1, 1),
            Rotation::R90 => (0, 0),
            Rotation::R180 => (1, 1),
            Rotation::R270 => (0, 0),
        },
        Rotations::JPiece => match rot {
            Rotation::R0 => (1, 0),
            Rotation::R90 => (0, 1),
            Rotation::R180 => (1, 0),
            Rotation::R270 => (0, 1),
        },
        Rotations::LPiece => match rot {
            Rotation::R0 => (1, 0),
            Rotation::R90 => (0, 0),
            Rotation::R180 => (1, 2),
            Rotation::R270 => (0, 1),
        },
    }
}

/// Side of the square box that holds a piece of this kind.
pub open spec fn size(kind: Rotations) -> int {
    match kind {
        Rotations::IPiece | Rotations::OPiece => 4,
        _ => 3,
    }
}

/// Whether cell (`r`, `c`) of the piece's box is part of the piece.
pub open spec fn filled(kind: Rotations, rot: Rotation, r: int, c: int) -> bool {
    0 <= r < size(kind) && 0 <= c < size(kind) && shape(kind, rot)[r][c]
}

pub proof fn lemma_shape_dims(kind: Rotations, rot: Rotation)
    ensures
        shape(kind, rot).len() == size(kind),
        forall|i: int| 0 <= i < size(kind) ==> (#[trigger] shape(kind, rot)[i]).len() == size(kind),
        filled(kind, rot, some_cell(kind, rot).0, some_cell(kind, rot).1),
{
    reveal(shape);
}

impl PieceMaps {
    /// The orientation `r` of this kind.
    pub open spec fn at(&self, r: Rotation) -> PieceMap {
        match r {
            Rotation::R0 => self.r0,
            Rotation::R90 => self.r90,
            Rotation::R180 => self.r180,
            Rotation::R270 => self.r270,
        }
    }

    pub open spec fn holds(&self, kind: Rotations) -> bool {
        &&& self.r0.deep_view() == shape(kind, Rotation::R0)
        &&& self.r90.deep_view() == shape(kind, Rotation::R90)
        &&& self.r180.deep_view() == shape(kind, Rotation::R180)
        &&& self.r270.deep_view() == shape(kind, Rotation::R270)
    }

    pub fn index(&self, r: Rotation) -> (m: &PieceMap)
        ensures
            *m == self.at(r),
    {
        match r {
            Rotation::R0 => &self.r0,
            Rotation::R90 => &self.r90,
            Rotation::R180 => &self.r180,
            Rotation::R270 => &self.r270,
        }
    }
}

impl Rotations {
    pub fn piece_map(&self) -> (m: PieceMaps)
        ensures
            m.holds(*self),
    {
        match self {
            Rotations::IPiece => PieceMaps {
                r0: map_i_r0(),
                r90: map_i_r90(),
                r180: map_i_r180(),
                r270: map_i_r270(),
            },
            Rotations::OPiece => PieceMaps {
                r0: map_o_r0(),
                r90: map_o_r90(),
                r180: map_o_r180(),
                r270: map_o_r270(),
            },
            Rotations::TPiece => PieceMaps {
                r0: map_t_r0(),
                r90: map_t_r90(),
                r180: map_t_r180(),
                r270: map_t_r270(),
            },
            Rotations::ZPiece => PieceMaps {
                r0: map_z_r0(),
                r90: map_z_r90(),
                r180: map_z_r180(),
                r270: map_z_r270(),
            },
            Rotations::SPiece => PieceMaps {
                r0: map_s_r0(),
                r90: map_s_r90(),
                r180: map_s_r180(),
                r270: map_s_r270(),
            },
            Rotations::JPiece => PieceMaps {
                r0: map_j_r0(),
                r90: map_j_r90(),
                r180: map_j_r180(),
                r270: map_j_r270(),
            },
            Rotations::LPiece => PieceMaps {
                r0: map_l_r0(),
                r90: map_l_r90(),
                r180: map_l_r180(),
                r270: map_l_r270(),
            },
        }
    }
}

fn map_i_r0() -> (m: PieceMap)
    ensures
        m.deep_view() == shape(Rotations::IPiece, Rotation::R0),
{
    let F = false;
    let T = true;
    let m = vec![vec![F, F, F, F], vec![T, T, T, T], vec![F, F, F, F], vec![F, F, F, F]];
    reveal(shape);
    assert(m.deep_view() =~~= shape(Rotations::IPiece, Rotation::R0));
    m
}

fn map_i_r90() -> (m: PieceMap)
    ensures
        m.deep_view() == shape(Rotations::IPiece, Rotation::R90),
{
    let F = false;
    let T = true;
    let m = vec![vec![F, F, T, F], vec![F, F, T, F], vec![F, F, T, F], vec![F, F, T, F]];
    reveal(shape);
    assert(m.deep_view() =~~= shape(Rotations::IPiece, Rotation::R90));
    m
}

fn map_i_r180() -> (m: PieceMap)
    ensures
        m.deep_view() == shape(Rotations::IPiece, Rotation::R180),
{
    let F = false;
    let T = true;
    let m = vec![vec![F, F, F, F], vec![T, T, T, T], vec![F, F, F, F], vec![F, F, F, F]];
    reveal(shape);
    assert(m.deep_view() =~~= shape(Rotations::IPiece, Rotation::R180));
    m
}

fn map_i_r270() -> (m: PieceMap)
    ensures
        m.deep_view() == shape(Rotations::IPiece, Rotation::R270),
{
    let F = false;
    let T = true;
    let m = vec![vec![F, F, T, F], vec![F, F, T, F], vec![F, F, T, F], vec![F, F, T, F]];
    reveal(shape);
    assert(m.deep_view() =~~= shape(Rotations::IPiece, Rotation::R270));
    m
}

fn map_o_r0() -> (m: PieceMap)
    ensures
        m.deep_view() == shape(Rotations::OPiece, Rotation::R0),
{
    let F = false;
    let T = true;
    let m = vec![vec![F, F, F, F], vec![F, T, T, F], vec![F, T, T, F], vec![F, F, F, F]];
    reveal(shape);
    assert(m.deep_view() =~~= shape(Rotations::OPiece, Rotation::R0));
    m
}

fn map_o_r90() -> (m: PieceMap)
    ensures
        m.deep_view() == shape(Rotations::OPiece, Rotation::R90),
{
    let F = false;
    let T = true;
    let m = vec![vec![F, F, F, F], vec![F, T, T, F], vec![F, T, T, F], vec![F, F, F, F]];
    reveal(shape);
    assert(m.deep_view() =~~= shape(Rotations::OPiece, Rotation::R90));
    m
}

fn map_o_r180() -> (m: PieceMap)
    ensures
        m.deep_view() == shape(Rotations::OPiece, Rotation::R180),
{
    let F = false;
    let T = true;
    let m = vec![vec![F, F, F, F], vec![F, T, T, F], vec![F, T, T, F], vec![F, F, F, F]];
    reveal(shape);
    assert(m.deep_view() =~~= shape(Rotations::OPiece, Rotation::R180));
    m
}

fn map_o_r270() -> (m: PieceMap)
    ensures
        m.deep_view() == shape(Rotations::OPiece, Rotation::R270),
{
    let F = false;
    let T = true;
    let m = vec![vec![F, F, F, F], vec![F, T, T, F], vec![F, T, T, F], vec![F, F, F, F]];
    reveal(shape);
    assert(m.deep_view() =~~= shape(Rotations::OPiece, Rotation::R270));
    m
}

fn map_t_r0() -> (m: PieceMap)
    ensures
        m.deep_view() == shape(Rotations::TPiece, Rotation::R0),
{
    let F = false;
    let T = true;
    let m = vec![vec![F, F, F], vec![T, T, T], vec![F, T, F]];
    reveal(shape);
    assert(m.deep_view() =~~= shape(Rotations::TPiece, Rotation::R0));
    m
}

fn map_t_r90() -> (m: PieceMap)
    ensures
        m.deep_view() == shape(Rotations::TPiece, Rotation::R90),
{
    let F = false;
    let T = true;
    let m = vec![vec![F, T, F], vec![T, T, F], vec![F, T, F]];
    reveal(shape);
    assert(m.deep_view() =~~= shape(Rotations::TPiece, Rotation::R90));
    m
}

fn map_t_r180() -> (m: PieceMap)
    ensures
        m.deep_view() == shape(Rotations::TPiece, Rotation::R180),
{
    let F = false;
    let T = true;
    let m = vec![vec![F, F, F], vec![F, T, F], vec![T, T, T]];
    reveal(shape);
    assert(m.deep_view() =~~= shape(Rotations::TPiece, Rotation::R180));
    m
}

fn map_t_r270() -> (m: PieceMap)
    ensures
        m.deep_view() == shape(Rotations::TPiece, Rotation::R270),
{
    let F = false;
    let T = true;
    let m = vec![vec![F, T, F], vec![F, T, T], vec![F, T, F]];
    reveal(shape);
    assert(m.deep_view() =~~= shape(Rotations::TPiece, Rotation::R270));
    m
}

fn map_z_r0() -> (m: PieceMap)
    ensures
        m.deep_view() == shape(Rotations::ZPiece, Rotation::R0),
{
    let F = false;
    let T = true;
    let m = vec![vec![F, F, F], vec![T, T, F], vec![F, T, T]];
    reveal(shape);
    assert(m.deep_view() =~~= shape(Rotations::ZPiece, Rotation::R0));
    m
}

fn map_z_r90() -> (m: PieceMap)
    ensures
        m.deep_view() == shape(Rotations::ZPiece, Rotation::R90),
{
    let F = false;
    let T = true;
    let m = vec![vec![F, F, T], vec![F, T, T], vec![F, T, F]];
    reveal(shape);
    assert(m.deep_view() =~~= shape(Rotations::ZPiece, Rotation::R90));
    m
}

fn map_z_r180() -> (m: PieceMap)
    ensures
        m.deep_view() == shape(Rotations::ZPiece, Rotation::R180),
{
    let F = false;
    let T = true;
    let m = vec![vec![F, F, F], vec![T, T, F], vec![F, T, T]];
    reveal(shape);
    assert(m.deep_view() =~~= shape(Rotations::ZPiece, Rotation::R180));
    m
}

fn map_z_r270() -> (m: PieceMap)
    ensures
        m.deep_view() == shape(Rotations::ZPiece, Rotation::R270),
{
    let F = false;
    let T = true;
    let m = vec![vec![F, F, T], vec![F, T, T], vec![F, T, F]];
    reveal(shape);
    assert(m.deep_view() =~~= shape(Rotations::ZPiece, Rotation::R270));
    m
}

fn map_s_r0() -> (m: PieceMap)
    ensures
        m.deep_view() == shape(Rotations::SPiece, Rotation::R0),
{
    let F = false;
    let T = true;
    let m = vec![vec![F, F, F], vec![F, T, T], vec![T, T, F]];
    reveal(shape);
    assert(m.deep_view() =~~= shape(Rotations::SPiece, Rotation::R0));
    m
}

fn map_s_r90() -> (m: PieceMap)
    ensures
        m.deep_view() == shape(Rotations::SPiece, Rotation::R90),
{
    let F = false;
    let T = true;
    let m = vec![vec![T, F, F], vec![T, T, F], vec![F, T, F]];
    reveal(shape);
    assert(m.deep_view() =~~= shape(Rotations::SPiece, Rotation::R90));
    m
}

fn map_s_r180() -> (m: PieceMap)
    ensures
        m.deep_view() == shape(Rotations::SPiece, Rotation::R180),
{
    let F = false;
    let T = true;
    let m = vec![vec![F, F, F], vec![F, T, T], vec![T, T, F]];
    reveal(shape);
    assert(m.deep_view() =~~= shape(Rotations::SPiece, Rotation::R180));
    m
}

fn map_s_r270() -> (m: PieceMap)
    ensures
        m.deep_view() == shape(Rotations::SPiece, Rotation::R270),
{
    let F = false;
    let T = true;
    let m = vec![vec![T, F, F], vec![T, T, F], vec![F, T, F]];
    reveal(shape);
    assert(m.deep_view() =~~= shape(Rotations::SPiece, Rotation::R270));
    m
}

fn map_j_r0() -> (m: PieceMap)
    ensures
        m.deep_view() == shape(Rotations::JPiece, Rotation::R0),
{
    let F = false;
    let T = true;
    let m = vec![vec![F, F, F], vec![T, T, T], vec![F, F, T]];
    reveal(shape);
    assert(m.deep_view() =~~= shape(Rotations::JPiece, Rotation::R0));
    m
}

fn map_j_r90() -> (m: PieceMap)
    ensures
        m.deep_view() == shape(Rotations::JPiece, Rotation::R90),
{
    let F = false;
    let T = true;
    let m = vec![vec![F, T, F], vec![F, T, F], vec![T, T, F]];
    reveal(shape);
    assert(m.deep_view() =~~= shape(Rotations::JPiece, Rotation::R90));
    m
}

fn map_j_r180() -> (m: PieceMap)
    ensures
        m.deep_view() == shape(Rotations::JPiece, Rotation::R180),
{
    let F = false;
    let T = true;
    let m = vec![vec![F, F, F], vec![T, F, F], vec![T, T, T]];
    reveal(shape);
    assert(m.deep_view() =~~= shape(Rotations::JPiece, Rotation::R180));
    m
}

fn map_j_r270() -> (m: PieceMap)
    ensures
        m.deep_view() == shape(Rotations::JPiece, Rotation::R270),
{
    let F = false;
    let T = true;
    let m = vec![vec![F, T, T], vec![F, T, F], vec![F, T, F]];
    reveal(shape);
    assert(m.deep_view() =~~= shape(Rotations::JPiece, Rotation::R270));
    m
}

fn map_l_r0() -> (m: PieceMap)
    ensures
        m.deep_view() == shape(Rotations::LPiece, Rotation::R0),
{
    let F = false;
    let T = true;
    let m = vec![vec![F, F, F], vec![T, T, T], vec![T, F, F]];
    reveal(shape);
    assert(m.deep_view() =~~= shape(Rotations::LPiece, Rotation::R0));
    m
}

fn map_l_r90() -> (m: PieceMap)
    ensures
        m.deep_view() == shape(Rotations::LPiece, Rotation::R90),
{
    let F = false;
    let T = true;
    let m = vec![vec![T, T, F], vec![F, T, F], vec![F, T, F]];
    reveal(shape);
    assert(m.deep_view() =~~= shape(Rotations::LPiece, Rotation::R90));
    m
}

fn map_l_r180() -> (m: PieceMap)
    ensures
        m.deep_view() == shape(Rotations::LPiece, Rotation::R180),
{
    let F = false;
    let T = true;
    let m = vec![vec![F, F, F], vec![F, F, T], vec![T, T, T]];
    reveal(shape);
    assert(m.deep_view() =~~= shape(Rotations::LPiece, Rotation::R180));
    m
}

fn map_l_r270() -> (m: PieceMap)
    ensures
        m.deep_view() == shape(Rotations::LPiece, Rotation::R270),
{
    let F = false;
    let T = true;
    let m = vec![vec![F, T, F], vec![F, T, F], vec![F, T, T]];
    reveal(shape);
    assert(m.deep_view() =~~= shape(Rotations::LPiece, Rotation::R270));
    m
}

/// Whether a well cell blocks a piece cell: outside the side walls or the
/// floor, or occupied. Cells above the top of the well are open.
pub open spec fn cell_blocked(well: Well, x: int, y: int) -> bool {
    y >= WELL_ROWS || x >= WELL_COLS || x < 0 || (y >= 0 && well.blocks[y][x].is_some())
}

/// Whether a piece of `kind` in orientation `rot` with its box at (`x`,
/// `y`) has a cell on a blocked well cell.
pub open spec fn blocked(kind: Rotations, rot: Rotation, well: Well, x: int, y: int) -> bool {
    exists|ri: int, ci: int| #[trigger]
        filled(kind, rot, ri, ci) && cell_blocked(well, x + ci, y + ri)
}

/// Whether every cell of the piece lies inside the well.
pub open spec fn inside(kind: Rotations, rot: Rotation, x: int, y: int) -> bool {
    forall|ri: int, ci: int| #[trigger]
        filled(kind, rot, ri, ci) ==> 0 <= y + ri < WELL_ROWS && 0 <= x + ci < WELL_COLS
}

/// A piece that is not blocked lies within the walls and above the floor.
pub proof fn lemma_unblocked_bounds(kind: Rotations, rot: Rotation, well: Well, x: int, y: int)
    requires
        !blocked(kind, rot, well, x, y),
    ensures
        -3 <= x < WELL_COLS,
        y < WELL_ROWS,
{
    lemma_shape_dims(kind, rot);
    let (ri, ci) = some_cell(kind, rot);
    assert(filled(kind, rot, ri, ci));
}

/// A piece that is not blocked and not above the top row lies inside the
/// well.
pub proof fn lemma_fits_inside(kind: Rotations, rot: Rotation, well: Well, x: int, y: int)
    requires
        !blocked(kind, rot, well, x, y),
        y >= 0,
    ensures
        inside(kind, rot, x, y),
{
    assert forall|ri: int, ci: int| #[trigger] filled(kind, rot, ri, ci) implies 0 <= y + ri < WELL_ROWS
        && 0 <= x + ci < WELL_COLS by {
        assert(!cell_blocked(well, x + ci, y + ri));
    }
}

/// Whether `base + off + k` fits an `i32` for every `k` in `0..size`.
pub open spec fn offset_fits(base: int, off: int, kind: Rotations) -> bool {
    i32::MIN <= base + off && base + off + size(kind) - 1 <= i32::MAX
}

/// Side of the box of a piece kind, as a number.
pub fn box_size(kind: Rotations) -> (n: i64)
    ensures
        n == size(kind),
{
    match kind {
        Rotations::IPiece | Rotations::OPiece => 4,
        _ => 3,
    }
}

/// Whether `base + off + k` fits an `i32` for every `k` in `0..size`.
pub fn offset_ok(base: i32, off: i32, kind: Rotations) -> (b: bool)
    ensures
        b == offset_fits(base as int, off as int, kind),
{
    let sum = base as i64 + off as i64;
    sum >= i32::MIN as i64 && sum + box_size(kind) - 1 <= i32::MAX as i64
}

pub open spec fn kind_of(color: Block) -> Rotations {
    match color {
        Block::Red => Rotations::IPiece,
        Block::Orange => Rotations::LPiece,
        Block::Yellow => Rotations::OPiece,
        Block::Green => Rotations::ZPiece,
        Block::Cyan => Rotations::TPiece,
        Block::Blue => Rotations::JPiece,
        Block::Purple => Rotations::SPiece,
    }
}

/// A falling piece: its kind, orientation, colour, the position of its box
/// in the well and its gravity and lock counters.
#[derive(Copy, Clone, Debug)]
pub struct Piece {
    pub rotation: Rotation,
    pub rotations: Rotations,
    pub color: Block,
    pub x: i32,
    pub y: i32,
    pub ticks_to_next_gravity: i32,
    pub ticks_to_lock: i32,
}


/// The row at which a piece dropped straight down from `y` comes to rest.
pub open spec fn settle(kind: Rotations, rot: Rotation, well: Well, x: int, y: int) -> int
    decreases WELL_ROWS - y,
{
    if y >= WELL_ROWS || blocked(kind, rot, well, x, y + 1) {
        y
    } else {
        settle(kind, rot, well, x, y + 1)
    }
}

/// The row reached from `y` by at most `k` one-row drops, each made only
/// when the row below is free.
pub open spec fn fall(kind: Rotations, rot: Rotation, well: Well, x: int, y: int, k: nat) -> int
    decreases k,
{
    if k == 0 || blocked(kind, rot, well, x, y + 1) {
        y
    } else {
        fall(kind, rot, well, x, y + 1, (k - 1) as nat)
    }
}

/// How many one-row gravity steps a counter at `t` pays for.
pub open spec fn gravity_steps(t: int) -> nat {
    if t <= 0 {
        ((-t) / 256 + 1) as nat
    } else {
        0
    }
}

/// A piece that has settled rests on something.
pub proof fn lemma_settle_rests(kind: Rotations, rot: Rotation, well: Well, x: int, y: int)
    ensures
        blocked(kind, rot, well, x, settle(kind, rot, well, x, y) + 1),
        settle(kind, rot, well, x, y) >= y,
        settle(kind, rot, well, x, y) > y ==> !blocked(kind, rot, well, x, settle(kind, rot, well, x, y)),
    decreases WELL_ROWS - y,
{
    if y >= WELL_ROWS {
        lemma_unblocked_is_above_floor(kind, rot, well, x, y + 1);
    } else if !blocked(kind, rot, well, x, y + 1) {
        lemma_settle_rests(kind, rot, well, x, y + 1);
    }
}

proof fn lemma_unblocked_is_above_floor(kind: Rotations, rot: Rotation, well: Well, x: int, y: int)
    requires
        y >= WELL_ROWS,
    ensures
        blocked(kind, rot, well, x, y),
{
    lemma_shape_dims(kind, rot);
    let (ri, ci) = some_cell(kind, rot);
    assert(filled(kind, rot, ri, ci) && cell_blocked(well, x + ci, y + ri));
}

pub proof fn lemma_fall_moves(kind: Rotations, rot: Rotation, well: Well, x: int, y: int, k: nat)
    ensures
        fall(kind, rot, well, x, y, k) >= y,
        fall(kind, rot, well, x, y, k) > y ==> !blocked(kind, rot, well, x, fall(kind, rot, well, x, y, k)),
    decreases k,
{
    if k > 0 && !blocked(kind, rot, well, x, y + 1) {
        lemma_fall_moves(kind, rot, well, x, y + 1, (k - 1) as nat);
    }
}

/// Whether cell (`r`, `c`) of a square map is set; cells outside are not.
pub open spec fn map_filled(m: Seq<Seq<bool>>, r: int, c: int) -> bool {
    0 <= r < m.len() && 0 <= c < m.len() && m[r][c]
}

/// The join bits of cell (`r`, `c`) of a square map: set towards each
/// neighbouring cell of the same map that is set.
pub open spec fn map_dirs(m: Seq<Seq<bool>>, r: int, c: int) -> u8 {
    dir_bits(map_filled(m, r - 1, c), map_filled(m, r + 1, c), map_filled(m, r, c - 1), map_filled(m, r, c + 1))
}

pub open spec fn is_square(m: Seq<Seq<bool>>) -> bool {
    forall|i: int| 0 <= i < m.len() ==> (#[trigger] m[i]).len() == m.len()
}

/// The join bits of a cell of a map: towards each neighbour in the map that
/// is set.
pub fn cell_directions(map: &PieceMap, ri: usize, ci: usize) -> (d: BlockDirections)
    requires
        is_square(map.deep_view()),
        ri < map@.len(),
        ci < map@.len(),
    ensures
        d@ == map_dirs(map.deep_view(), ri as int, ci as int),
{
    let ghost m = map.deep_view();
    let n = map.len();
    assert(m[ri as int] == map@[ri as int].deep_view());
    let row = &map[ri];
    assert(row@.len() == n);
    let up = if ri > 0 {
        assert(m[ri - 1] == map@[ri - 1].deep_view());
        assert(map@[ri - 1]@.len() == n);
        map[ri - 1][ci]
    } else {
        false
    };
    let down = if ri + 1 < n {
        assert(m[ri + 1] == map@[ri + 1].deep_view());
        assert(map@[ri + 1]@.len() == n);
        map[ri + 1][ci]
    } else {
        false
    };
    let left = if ci > 0 {
        row[ci - 1]
    } else {
        false
    };
    let right = if ci + 1 < row.len() {
        row[ci + 1]
    } else {
        false
    };
    BlockDirections::new(up, down, left, right)
}

/// A hard drop leaves the piece resting on the floor or the stack.
pub proof fn lemma_hard_drop_rests(p: Piece, well: Well, inputs: Inputs)
    requires
        inputs.spec_key_just_pressed(Input::Up),
    ensures
        p.spec_sonic(well, inputs).spec_collides(well, 0, 1, p.rotation),
        p.spec_sonic(well, inputs).y >= p.y,
{
    let y = settle(p.rotations, p.rotation, well, p.x as int, p.y as int);
    lemma_settle_rests(p.rotations, p.rotation, well, p.x as int, p.y as int);
    if y > p.y {
        lemma_unblocked_bounds(p.rotations, p.rotation, well, p.x as int, y);
        assert(p.spec_sonic(well, inputs).y == y);
    }
}

impl Piece {
    /// The hard drop computes nothing out of `i32` range: when up is
    /// freshly pressed, the columns and the rows one below fit.
    pub open spec fn sonic_ok(self, inputs: Inputs) -> bool {
        inputs.spec_key_just_pressed(Input::Up) ==> offset_fits(self.x as int, 0, self.rotations)
            && offset_fits(self.y as int, 1, self.rotations)
    }

    /// The shift computes nothing out of `i32` range.
    pub open spec fn horizontal_ok(self, inputs: Inputs) -> bool {
        if inputs.spec_key_press_or_das(Input::Left, 16) {
            offset_fits(self.x as int, -1, self.rotations) && offset_fits(self.y as int, 0, self.rotations)
        } else if inputs.spec_key_press_or_das(Input::Right, 16) {
            offset_fits(self.x as int, 1, self.rotations) && offset_fits(self.y as int, 0, self.rotations)
        } else {
            true
        }
    }

    /// Turning to `r`, with its kicks, computes nothing out of `i32` range.
    pub open spec fn turn_ok(self, well: Well, r: Rotation) -> bool {
        &&& offset_fits(self.x as int, 0, self.rotations)
        &&& offset_fits(self.y as int, 0, self.rotations)
        &&& self.spec_collides(well, 0, 0, r) ==> offset_fits(self.x as int, 1, self.rotations)
            && (self.spec_collides(well, 1, 0, r) ==> offset_fits(self.x as int, -1, self.rotations))
    }

    /// The turn computes nothing out of `i32` range.
    pub open spec fn rotate_ok(self, well: Well, inputs: Inputs) -> bool {
        if inputs.spec_key_just_pressed(Input::CW) {
            self.turn_ok(well, spec_cw(self.rotation))
        } else if inputs.spec_key_just_pressed(Input::CCW) {
            self.turn_ok(well, spec_ccw(self.rotation))
        } else {
            true
        }
    }

    /// The gravity tick computes nothing out of `i32` range: the counter
    /// after paying, the columns, the rows one below, and the lock counter
    /// when it counts down without having been reset.
    pub open spec fn gravity_ok(self, well: Well, inputs: Inputs, rate: i32, inputs_active: bool) -> bool {
        let t0 = self.ticks_to_next_gravity - self.gravity_cost(inputs, rate, inputs_active);
        let y1 = fall(self.rotations, self.rotation, well, self.x as int, self.y as int, gravity_steps(t0));
        &&& i32::MIN <= t0 <= i32::MAX
        &&& offset_fits(self.x as int, 0, self.rotations)
        &&& offset_fits(self.y as int, 1, self.rotations)
        &&& (y1 == self.y && blocked(self.rotations, self.rotation, well, self.x as int, y1 + 1))
            ==> self.ticks_to_lock > i32::MIN
    }

    /// The lock check computes nothing out of `i32` range, and a lock writes
    /// only cells inside the well.
    pub open spec fn lock_ok(self, well: Well, inputs: Inputs) -> bool {
        &&& offset_fits(self.x as int, 0, self.rotations)
        &&& offset_fits(self.y as int, 1, self.rotations)
        &&& self.spec_lock_now(well, inputs) ==> inside(self.rotations, self.rotation, self.x as int, self.y as int)
    }

    pub open spec fn spec_collides(self, well: Well, x_offset: int, y_offset: int, r: Rotation) -> bool {
        blocked(self.rotations, r, well, self.x + x_offset, self.y + y_offset)
    }

    /// A fresh piece of the given colour at the spawn position.
    pub open spec fn spec_new(color: Block) -> Piece {
        Piece {
            rotation: Rotation::R0,
            rotations: kind_of(color),
            color,
            x: 3,
            y: 0,
            ticks_to_next_gravity: 256,
            ticks_to_lock: 30,
        }
    }

    pub fn new(color: Block) -> (p: Piece)
        ensures
            p == Piece::spec_new(color),
    {
        let map = match color {
            Block::Red => Rotations::IPiece,
            Block::Orange => Rotations::LPiece,
            Block::Yellow => Rotations::OPiece,
            Block::Green => Rotations::ZPiece,
            Block::Cyan => Rotations::TPiece,
            Block::Blue => Rotations::JPiece,
            Block::Purple => Rotations::SPiece,
        };
        Piece {
            rotation: Rotation::R0,
            rotations: map,
            color,
            x: 3,
            y: 0,
            ticks_to_lock: 30,
            ticks_to_next_gravity: 256,
        }
    }

    pub open spec fn spec_sonic(self, well: Well, inputs: Inputs) -> Piece {
        if inputs.spec_key_just_pressed(Input::Up) {
            let y = settle(self.rotations, self.rotation, well, self.x as int, self.y as int);
            if y == self.y {
                self
            } else {
                Piece { y: y as i32, ticks_to_lock: 30, ticks_to_next_gravity: 256, ..self }
            }
        } else {
            self
        }
    }

    /// On a fresh press of up, drops the piece straight down until it rests.
    pub fn do_sonic(&mut self, well: &Well, inputs: &Inputs)
        requires
            old(self).sonic_ok(*inputs),
        ensures
            *final(self) == old(self).spec_sonic(*well, *inputs),
    {
        if inputs.key_just_pressed(Input::Up) {
            let ghost start = *self;
            let ghost target = settle(start.rotations, start.rotation, *well, start.x as int, start.y as int);
            while !self.collides_with(well, 0, 1, self.rotation)
                invariant
                    offset_fits(start.x as int, 0, start.rotations),
                    offset_fits(start.y as int, 1, start.rotations),
                    self.y == start.y || self.y < WELL_ROWS,
                    self.rotations == start.rotations,
                    self.rotation == start.rotation,
                    self.x == start.x,
                    self.color == start.color,
                    self.y >= start.y,
                    settle(self.rotations, self.rotation, *well, self.x as int, self.y as int) == target,
                    self.y == start.y ==> *self == start,
                    self.y != start.y ==> self.ticks_to_lock == 30 && self.ticks_to_next_gravity == 256,
                decreases WELL_ROWS - self.y,
            {
                proof {
                    lemma_unblocked_bounds(self.rotations, self.rotation, *well, self.x as int, self.y + 1);
                }
                self.y += 1;
                self.ticks_to_lock = 30;
                self.ticks_to_next_gravity = 256;
            }
        }
    }

    pub open spec fn spec_horizontal(self, well: Well, inputs: Inputs) -> Piece {
        if inputs.spec_key_press_or_das(Input::Left, 16) {
            if !self.spec_collides(well, -1, 0, self.rotation) {
                Piece { x: (self.x - 1) as i32, ..self }
            } else {
                self
            }
        } else if inputs.spec_key_press_or_das(Input::Right, 16) {
            if !self.spec_collides(well, 1, 0, self.rotation) {
                Piece { x: (self.x + 1) as i32, ..self }
            } else {
                self
            }
        } else {
            self
        }
    }

    /// Shifts the piece one column left or right, with left taking
    /// precedence, when the key was just pressed or has auto-repeated.
    pub fn do_horizontal(&mut self, well: &Well, inputs: &Inputs)
        requires
            old(self).horizontal_ok(*inputs),
        ensures
            *final(self) == old(self).spec_horizontal(*well, *inputs),
    {
        if inputs.key_press_or_das(Input::Left, 16) {
            if !self.collides_with(well, -1, 0, self.rotation) {
                self.x = self.x - 1;
            }
        } else if inputs.key_press_or_das(Input::Right, 16) {
            if !self.collides_with(well, 1, 0, self.rotation) {
                self.x = self.x + 1;
            }
        }
    }

    /// What a gravity tick subtracts from the gravity counter.
    pub open spec fn gravity_cost(self, inputs: Inputs, rate: i32, inputs_active: bool) -> int {
        if inputs.spec_key_pressed(Input::Down) && inputs_active {
            if rate > 256 {
                rate as int
            } else {
                256
            }
        } else {
            rate as int
        }
    }

    /// The piece after a gravity tick, and whether it has just landed.
    pub open spec fn spec_gravity(self, well: Well, inputs: Inputs, rate: i32, inputs_active: bool) -> (Piece, bool) {
        let t0 = self.ticks_to_next_gravity - self.gravity_cost(inputs, rate, inputs_active);
        let y1 = fall(self.rotations, self.rotation, well, self.x as int, self.y as int, gravity_steps(t0));
        let lock1: int = if y1 != self.y { 30 } else { self.ticks_to_lock as int };
        let grav1: int = if t0 <= 0 { 256 } else { t0 };
        let resting = blocked(self.rotations, self.rotation, well, self.x as int, y1 + 1);
        (
            Piece {
                y: y1 as i32,
                ticks_to_lock: (if resting { lock1 - 1 } else { lock1 }) as i32,
                ticks_to_next_gravity: (if resting { 256 } else { grav1 }) as i32,
                ..self
            },
            resting && lock1 == 30,
        )
    }

    /// Pays the gravity counter (faster while down is held, if inputs are
    /// active), drops the piece one row per 256 units owed while the row
    /// below is free, and counts down the lock delay while it rests.
    /// Returns whether the piece has just landed.
    pub fn do_gravity(&mut self, well: &Well, inputs: &Inputs, rate: i32, inputs_active: bool) -> (landed: bool)
        requires
            old(self).gravity_ok(*well, *inputs, rate, inputs_active),
        ensures
            (*final(self), landed) == old(self).spec_gravity(*well, *inputs, rate, inputs_active),
    {
        let ghost start = *self;
        let cost = if inputs.key_pressed(Input::Down) && inputs_active {
            if rate > 256 { rate } else { 256 }
        } else {
            rate
        };
        self.ticks_to_next_gravity -= cost;
        let ghost t0 = self.ticks_to_next_gravity as int;
        let ghost k = gravity_steps(t0);
        if self.ticks_to_next_gravity <= 0 {
            while self.ticks_to_next_gravity <= 0
                invariant
                    offset_fits(start.x as int, 0, start.rotations),
                    offset_fits(start.y as int, 1, start.rotations),
                    self.rotations == start.rotations,
                    self.rotation == start.rotation,
                    self.x == start.x,
                    self.color == start.color,
                    self.y >= start.y,
                    self.y == start.y || self.y < WELL_ROWS,
                    self.ticks_to_next_gravity <= 256,
                    fall(self.rotations, self.rotation, *well, self.x as int, self.y as int,
                        gravity_steps(self.ticks_to_next_gravity as int))
                        == fall(start.rotations, start.rotation, *well, start.x as int, start.y as int, k),
                    self.y == start.y ==> self.ticks_to_lock == start.ticks_to_lock,
                    self.y != start.y ==> self.ticks_to_lock == 30,
                decreases 256 - self.ticks_to_next_gravity,
            {
                if !self.collides_with(well, 0, 1, self.rotation) {
                    proof {
                        lemma_unblocked_bounds(self.rotations, self.rotation, *well, self.x as int, self.y + 1);
                    }
                    self.y += 1;
                    self.ticks_to_lock = 30;
                }
                self.ticks_to_next_gravity += 256;
            }
            self.ticks_to_next_gravity = 256;
        }
        let resting = self.collides_with(well, 0, 1, self.rotation);
        let landed = resting && self.ticks_to_lock == 30;
        if resting {
            self.ticks_to_lock -= 1;
            self.ticks_to_next_gravity = 256;
        }
        landed
    }

    /// The piece after trying to turn to `r` in place, then one column to
    /// the right, then one to the left.
    pub open spec fn spec_turn(self, well: Well, r: Rotation) -> Piece {
        if !self.spec_collides(well, 0, 0, r) {
            Piece { rotation: r, ..self }
        } else if !self.spec_collides(well, 1, 0, r) {
            Piece { rotation: r, x: (self.x + 1) as i32, ..self }
        } else if !self.spec_collides(well, -1, 0, r) {
            Piece { rotation: r, x: (self.x - 1) as i32, ..self }
        } else {
            self
        }
    }

    pub open spec fn spec_rotate(self, well: Well, inputs: Inputs) -> Piece {
        if inputs.spec_key_just_pressed(Input::CW) {
            self.spec_turn(well, spec_cw(self.rotation))
        } else if inputs.spec_key_just_pressed(Input::CCW) {
            self.spec_turn(well, spec_ccw(self.rotation))
        } else {
            self
        }
    }

    fn turn(&mut self, well: &Well, r: Rotation)
        requires
            old(self).turn_ok(*well, r),
        ensures
            *final(self) == old(self).spec_turn(*well, r),
    {
        if !self.collides_with(well, 0, 0, r) {
            self.rotation = r;
        } else if !self.collides_with(well, 1, 0, r) {
            self.rotation = r;
            self.x += 1;
        } else if !self.collides_with(well, -1, 0, r) {
            self.rotation = r;
            self.x -= 1;
        }
    }

    /// On a fresh press of a turn key, turns the piece, kicking it one
    /// column right or left when it does not fit in place.
    pub fn do_rotate(&mut self, well: &Well, inputs: &Inputs)
        requires
            old(self).rotate_ok(*well, *inputs),
        ensures
            *final(self) == old(self).spec_rotate(*well, *inputs),
    {
        if inputs.key_just_pressed(Input::CW) {
            let r = self.rotation.cw();
            self.turn(well, r);
        } else if inputs.key_just_pressed(Input::CCW) {
            let r = self.rotation.ccw();
            self.turn(well, r);
        }
    }

    /// Whether the piece locks this tick: it rests on something and its
    /// lock delay is spent or down is held.
    pub open spec fn spec_lock_now(self, well: Well, inputs: Inputs) -> bool {
        self.spec_collides(well, 0, 1, self.rotation) && (self.ticks_to_lock == 0
            || inputs.spec_key_pressed(Input::Down))
    }

    /// `after` is `before` with the piece's cells written as tiles of its
    /// colour, each joined to its neighbours within the piece.
    pub open spec fn locked_into(self, before: Well, after: Well) -> bool {
        forall|r: int, c: int|
            0 <= r < WELL_ROWS && 0 <= c < WELL_COLS ==> if filled(
                self.rotations,
                self.rotation,
                r - self.y,
                c - self.x,
            ) {
                #[trigger] after.blocks[r][c] matches Some(t) && t.color == self.color && t.directions@
                    == map_dirs(shape(self.rotations, self.rotation), r - self.y, c - self.x)
            } else {
                after.blocks[r][c] == before.blocks[r][c]
            }
    }

    /// Locks the piece into the well when it rests and its lock delay is
    /// spent or down is held; returns whether it did.
    pub fn do_lock(&self, well: &mut Well, inputs: &Inputs) -> (locked: bool)
        requires
            self.lock_ok(*old(well), *inputs),
        ensures
            locked == self.spec_lock_now(*old(well), *inputs),
            locked ==> self.locked_into(*old(well), *final(well)),
            !locked ==> *final(well) == *old(well),
    {
        if self.collides_with(well, 0, 1, self.rotation) && (self.ticks_to_lock == 0 || inputs.key_pressed(Input::Down)) {
            self.lock_to(well);
            true
        } else {
            false
        }
    }

    fn lock_to(&self, well: &mut Well)
        requires
            inside(self.rotations, self.rotation, self.x as int, self.y as int),
        ensures
            self.locked_into(*old(well), *final(well)),
    {
        let maps = self.rotations.piece_map();
        let current = maps.index(self.rotation);
        let ghost kind = self.rotations;
        let ghost rot = self.rotation;
        let ghost m = shape(kind, rot);
        let ghost start = *well;
        proof {
            lemma_shape_dims(kind, rot);
        }
        let n = current.len();
        let mut ri: usize = 0;
        while ri < n
            invariant
                n == size(kind),
                n == current@.len(),
                current.deep_view() == m,
                m == shape(kind, rot),
                kind == self.rotations,
                rot == self.rotation,
                is_square(m),
                inside(kind, rot, self.x as int, self.y as int),
                0 <= ri <= n,
                self.wrote_cells(start, *well, ri as int, 0),
            decreases n - ri,
        {
            assert(current.deep_view()[ri as int] == current@[ri as int].deep_view());
            let row = &current[ri];
            assert(row@.len() == n);
            let mut ci: usize = 0;
            while ci < n
                invariant
                    n == size(kind),
                    n == current@.len(),
                    current.deep_view() == m,
                    m == shape(kind, rot),
                    row.deep_view() == m[ri as int],
                    row@.len() == n,
                    kind == self.rotations,
                    rot == self.rotation,
                    is_square(m),
                    inside(kind, rot, self.x as int, self.y as int),
                    0 <= ri < n,
                    0 <= ci <= n,
                    self.wrote_cells(start, *well, ri as int, ci as int),
                decreases n - ci,
            {
                if row[ci] {
                    assert(filled(kind, rot, ri as int, ci as int));
                    let directions = cell_directions(current, ri, ci);
                    let y_index = (self.y + ri as i32) as usize;
                    let x_index = (self.x + ci as i32) as usize;
                    let ghost before = *well;
                    well.blocks[y_index][x_index] = Some(Tile { color: self.color, directions });
                    assert(self.wrote_cells(start, *well, ri as int, ci + 1)) by {
                        assert forall|r: int, c: int| 0 <= r < WELL_ROWS && 0 <= c < WELL_COLS implies
                            #[trigger] well.blocks[r][c] == if r == y_index && c == x_index {
                                Some(Tile { color: self.color, directions })
                            } else {
                                before.blocks[r][c]
                            } by {
                            if r != y_index {
                                assert(well.blocks[r] == before.blocks[r]);
                            }
                        }
                    }
                } else {
                    assert(!filled(kind, rot, ri as int, ci as int));
                }
                ci += 1;
            }
            assert(self.wrote_cells(start, *well, ri + 1, 0));
            ri += 1;
        }
        assert(self.wrote_cells(start, *well, n as int, 0));
    }

    /// `after` is `before` with the piece's cells before box cell (`ri`,
    /// `ci`), in row-major order, written as tiles.
    spec fn wrote_cells(self, before: Well, after: Well, ri: int, ci: int) -> bool {
        forall|r: int, c: int|
            0 <= r < WELL_ROWS && 0 <= c < WELL_COLS ==> if filled(self.rotations, self.rotation, r - self.y, c - self.x)
                && (r - self.y < ri || (r - self.y == ri && c - self.x < ci)) {
                #[trigger] after.blocks[r][c] matches Some(t) && t.color == self.color
                    && t.directions@ == map_dirs(shape(self.rotations, self.rotation), r - self.y, c - self.x)
            } else {
                after.blocks[r][c] == before.blocks[r][c]
            }
    }

    /// Whether the piece, moved by the offsets and turned to `r`, would have
    /// a cell outside the walls, below the floor or on a settled block.
    pub fn collides_with(&self, well: &Well, x_offset: i32, y_offset: i32, r: Rotation) -> (b: bool)
        requires
            offset_fits(self.x as int, x_offset as int, self.rotations),
            offset_fits(self.y as int, y_offset as int, self.rotations),
        ensures
            b == self.spec_collides(*well, x_offset as int, y_offset as int, r),
    {
        let maps = self.rotations.piece_map();
        let current = maps.index(r);
        proof {
            lemma_shape_dims(self.rotations, r);
        }
        let kind = self.rotations;
        assert(is_square(shape(kind, r)));
        let bx = self.x + x_offset;
        let by = self.y + y_offset;
        let n = current.len();
        let mut ri: usize = 0;
        while ri < n
            invariant
                n == size(kind),
                n == current@.len(),
                current.deep_view() == shape(kind, r),
                is_square(shape(kind, r)),
                kind == self.rotations,
                bx == self.x + x_offset,
                by == self.y + y_offset,
                offset_fits(self.x as int, x_offset as int, kind),
                offset_fits(self.y as int, y_offset as int, kind),
                0 <= ri <= n,
                forall|i: int, j: int|
                    0 <= i < ri && filled(kind, r, i, j) ==> !cell_blocked(*well, bx + j, by + i),
            decreases n - ri,
        {
            let row = &current[ri];
            assert(current.deep_view()[ri as int] == row.deep_view());
            assert(row@.len() == n);
            let mut ci: usize = 0;
            while ci < n
                invariant
                    n == size(kind),
                    current.deep_view() == shape(kind, r),
                    row.deep_view() == shape(kind, r)[ri as int],
                    row@.len() == n,
                    kind == self.rotations,
                    bx == self.x + x_offset,
                    by == self.y + y_offset,
                    offset_fits(self.x as int, x_offset as int, kind),
                    offset_fits(self.y as int, y_offset as int, kind),
                    0 <= ri < n,
                    0 <= ci <= n,
                    forall|i: int, j: int|
                        0 <= i < ri && filled(kind, r, i, j) ==> !cell_blocked(*well, bx + j, by + i),
                    forall|j: int|
                        0 <= j < ci && filled(kind, r, ri as int, j) ==> !cell_blocked(
                            *well,
                            bx + j,
                            by + ri,
                        ),
                decreases n - ci,
            {
                let y_index = by + ri as i32;
                let x_index = bx + ci as i32;
                let col = row[ci];
                assert(col == shape(kind, r)[ri as int][ci as int]);
                if col && (y_index >= WELL_ROWS as i32 || x_index >= WELL_COLS as i32 || x_index < 0) {
                    assert(filled(kind, r, ri as int, ci as int));
                    assert(cell_blocked(*well, bx + ci, by + ri));
                    return true;
                } else if y_index >= 0 && col && well.blocks[y_index as usize][x_index as usize].is_some() {
                    assert(filled(kind, r, ri as int, ci as int));
                    assert(cell_blocked(*well, bx + ci, by + ri));
                    return true;
                }
                ci += 1;
            }
            ri += 1;
        }
        false
    }
}

impl Piece {
    /// Whether `sonic_ok` holds.
    pub fn sonic_is_ok(&self, inputs: &Inputs) -> (b: bool)
        ensures
            b == self.sonic_ok(*inputs),
    {
        !inputs.key_just_pressed(Input::Up) || (offset_ok(self.x, 0, self.rotations) && offset_ok(self.y, 1, self.rotations))
    }

    /// Whether `horizontal_ok` holds.
    pub fn horizontal_is_ok(&self, inputs: &Inputs) -> (b: bool)
        ensures
            b == self.horizontal_ok(*inputs),
    {
        if inputs.key_press_or_das(Input::Left, 16) {
            offset_ok(self.x, -1, self.rotations) && offset_ok(self.y, 0, self.rotations)
        } else if inputs.key_press_or_das(Input::Right, 16) {
            offset_ok(self.x, 1, self.rotations) && offset_ok(self.y, 0, self.rotations)
        } else {
            true
        }
    }

    fn turn_is_ok(&self, well: &Well, r: Rotation) -> (b: bool)
        ensures
            b == self.turn_ok(*well, r),
    {
        if !(offset_ok(self.x, 0, self.rotations) && offset_ok(self.y, 0, self.rotations)) {
            return false;
        }
        if !self.collides_with(well, 0, 0, r) {
            return true;
        }
        if !offset_ok(self.x, 1, self.rotations) {
            return false;
        }
        !self.collides_with(well, 1, 0, r) || offset_ok(self.x, -1, self.rotations)
    }

    /// Whether `rotate_ok` holds.
    pub fn rotate_is_ok(&self, well: &Well, inputs: &Inputs) -> (b: bool)
        ensures
            b == self.rotate_ok(*well, *inputs),
    {
        if inputs.key_just_pressed(Input::CW) {
            self.turn_is_ok(well, self.rotation.cw())
        } else if inputs.key_just_pressed(Input::CCW) {
            self.turn_is_ok(well, self.rotation.ccw())
        } else {
            true
        }
    }

    /// Whether `gravity_ok` holds.
    pub fn gravity_is_ok(&self, well: &Well, inputs: &Inputs, rate: i32, inputs_active: bool) -> (b: bool)
        ensures
            b == self.gravity_ok(*well, *inputs, rate, inputs_active),
    {
        let cost: i64 = if inputs.key_pressed(Input::Down) && inputs_active {
            if rate > 256 { rate as i64 } else { 256 }
        } else {
            rate as i64
        };
        let t0 = self.ticks_to_next_gravity as i64 - cost;
        if t0 < i32::MIN as i64 || t0 > i32::MAX as i64 {
            return false;
        }
        if !(offset_ok(self.x, 0, self.rotations) && offset_ok(self.y, 1, self.rotations)) {
            return false;
        }
        if self.ticks_to_lock > i32::MIN {
            return true;
        }
        let mut q = *self;
        q.ticks_to_lock = 0;
        q.do_gravity(well, inputs, rate, inputs_active);
        let ghost k = gravity_steps(t0 as int);
        proof {
            lemma_fall_moves(self.rotations, self.rotation, *well, self.x as int, self.y as int, k);
            if q.y > self.y {
                lemma_unblocked_bounds(self.rotations, self.rotation, *well, self.x as int, q.y as int);
            }
        }
        if q.y != self.y {
            return true;
        }
        !q.collides_with(well, 0, 1, q.rotation)
    }

    /// Whether every cell of the piece lies inside the well.
    pub fn fits_inside(&self) -> (b: bool)
        ensures
            b == inside(self.rotations, self.rotation, self.x as int, self.y as int),
    {
        let maps = self.rotations.piece_map();
        let current = maps.index(self.rotation);
        let ghost kind = self.rotations;
        let ghost rot = self.rotation;
        proof {
            lemma_shape_dims(kind, rot);
        }
        assert(is_square(shape(kind, rot)));
        let n = current.len();
        let mut ri: usize = 0;
        while ri < n
            invariant
                n == size(kind),
                n == current@.len(),
                current.deep_view() == shape(kind, rot),
                is_square(shape(kind, rot)),
                kind == self.rotations,
                rot == self.rotation,
                0 <= ri <= n,
                forall|i: int, j: int|
                    0 <= i < ri && #[trigger] filled(kind, rot, i, j) ==> 0 <= self.y + i < WELL_ROWS && 0 <= self.x + j
                        < WELL_COLS,
            decreases n - ri,
        {
            let row = &current[ri];
            assert(current.deep_view()[ri as int] == row.deep_view());
            assert(row@.len() == n);
            let mut ci: usize = 0;
            while ci < n
                invariant
                    n == size(kind),
                    row.deep_view() == shape(kind, rot)[ri as int],
                    row@.len() == n,
                    kind == self.rotations,
                    rot == self.rotation,
                    0 <= ri < n,
                    0 <= ci <= n,
                    forall|i: int, j: int|
                        0 <= i < ri && #[trigger] filled(kind, rot, i, j) ==> 0 <= self.y + i < WELL_ROWS && 0
                            <= self.x + j < WELL_COLS,
                    forall|j: int|
                        0 <= j < ci && #[trigger] filled(kind, rot, ri as int, j) ==> 0 <= self.y + ri < WELL_ROWS
                            && 0 <= self.x + j < WELL_COLS,
                decreases n - ci,
            {
                if row[ci] {
                    assert(filled(kind, rot, ri as int, ci as int));
                    let yy = self.y as i64 + ri as i64;
                    let xx = self.x as i64 + ci as i64;
                    if yy < 0 || yy >= WELL_ROWS as i64 || xx < 0 || xx >= WELL_COLS as i64 {
                        return false;
                    }
                } else {
                    assert(!filled(kind, rot, ri as int, ci as int));
                }
                ci += 1;
            }
            ri += 1;
        }
        true
    }

    /// Whether `lock_ok` holds.
    pub fn lock_is_ok(&self, well: &Well, inputs: &Inputs) -> (b: bool)
        ensures
            b == self.lock_ok(*well, *inputs),
    {
        if !(offset_ok(self.x, 0, self.rotations) && offset_ok(self.y, 1, self.rotations)) {
            return false;
        }
        if self.collides_with(well, 0, 1, self.rotation) && (self.ticks_to_lock == 0 || inputs.key_pressed(Input::Down)) {
            self.fits_inside()
        } else {
            true
        }
    }
}

/// The piece with its gravity counter set to `c`.
pub open spec fn with_counter(p: Piece, c: int) -> Piece {
    Piece { ticks_to_next_gravity: c as i32, ..p }
}

/// The piece after `n` gravity ticks.
pub open spec fn gravity_ticks(p: Piece, well: Well, inputs: Inputs, rate: i32, active: bool, n: nat) -> Piece
    decreases n,
{
    if n == 0 {
        p
    } else {
        gravity_ticks(p, well, inputs, rate, active, (n - 1) as nat).spec_gravity(well, inputs, rate, active).0
    }
}

/// Gravity at `rate` 1/256 rows a tick, with down not held, moves a piece
/// whose row below is free by one row in the tick that pays the 256th unit,
/// `n` ticks after a full counter: in each earlier tick the piece stays where
/// it is and only its counter drops by `rate`.
pub proof fn lemma_gravity_row_per_ticks(p: Piece, well: Well, inputs: Inputs, rate: i32, inputs_active: bool, n: nat)
    requires
        1 <= rate <= 256,
        !(inputs.spec_key_pressed(Input::Down) && inputs_active),
        p.ticks_to_next_gravity == 256,
        !blocked(p.rotations, p.rotation, well, p.x as int, p.y as int + 1),
        n >= 1,
        (n - 1) * rate < 256 <= n * rate,
    ensures
        forall|m: nat|
            m < n ==> #[trigger] gravity_ticks(p, well, inputs, rate, inputs_active, m) == with_counter(
                p,
                256 - m * rate,
            ),
        gravity_ticks(p, well, inputs, rate, inputs_active, n).y == p.y + 1,
        gravity_ticks(p, well, inputs, rate, inputs_active, n).x == p.x,
        gravity_ticks(p, well, inputs, rate, inputs_active, n).rotation == p.rotation,
        gravity_ticks(p, well, inputs, rate, inputs_active, n).rotations == p.rotations,
        gravity_ticks(p, well, inputs, rate, inputs_active, n).ticks_to_next_gravity == 256,
{
    assert forall|m: nat| m < n implies #[trigger] gravity_ticks(p, well, inputs, rate, inputs_active, m)
        == with_counter(p, 256 - m * rate) by {
        lemma_gravity_waits(p, well, inputs, rate, inputs_active, n, m);
    }
    let m = (n - 1) as nat;
    let q = gravity_ticks(p, well, inputs, rate, inputs_active, m);
    lemma_gravity_waits(p, well, inputs, rate, inputs_active, n, m);
    assert(n * rate == m * rate + rate) by (nonlinear_arith)
        requires
            m == n - 1,
    ;
    let t0 = q.ticks_to_next_gravity - q.gravity_cost(inputs, rate, inputs_active);
    assert(t0 == 256 - n * rate);
    assert(-256 < t0 <= 0);
    assert(gravity_steps(t0) == 1) by {
        assert((-t0) / 256 == 0);
    }
    assert(q.y == p.y && q.x == p.x && q.rotation == p.rotation && q.rotations == p.rotations);
    assert(q.gravity_cost(inputs, rate, inputs_active) == rate);
    assert(fall(p.rotations, p.rotation, well, p.x as int, p.y as int + 1, 0) == p.y + 1);
    assert(fall(p.rotations, p.rotation, well, p.x as int, p.y as int, 1) == p.y + 1);
    lemma_unblocked_bounds(p.rotations, p.rotation, well, p.x as int, p.y as int + 1);
    let r = q.spec_gravity(well, inputs, rate, inputs_active).0;
    assert(r.y == p.y + 1);
    assert(gravity_ticks(p, well, inputs, rate, inputs_active, n) == r);
}

proof fn lemma_gravity_waits(p: Piece, well: Well, inputs: Inputs, rate: i32, inputs_active: bool, n: nat, m: nat)
    requires
        1 <= rate <= 256,
        !(inputs.spec_key_pressed(Input::Down) && inputs_active),
        p.ticks_to_next_gravity == 256,
        !blocked(p.rotations, p.rotation, well, p.x as int, p.y as int + 1),
        (n - 1) * rate < 256,
        m < n,
    ensures
        gravity_ticks(p, well, inputs, rate, inputs_active, m) == with_counter(p, 256 - m * rate),
    decreases m,
{
    if m == 0 {
        assert(0 * rate == 0);
        assert(with_counter(p, 256) == p);
    } else {
        let k = (m - 1) as nat;
        lemma_gravity_waits(p, well, inputs, rate, inputs_active, n, k);
        assert(m * rate == k * rate + rate && m * rate <= (n - 1) * rate && k * rate >= 0) by (nonlinear_arith)
            requires
                k == m - 1,
                m < n,
                rate >= 1,
        ;
        let q = gravity_ticks(p, well, inputs, rate, inputs_active, k);
        assert(q.ticks_to_next_gravity == 256 - k * rate);
        assert(q.y == p.y && q.x == p.x && q.rotation == p.rotation && q.rotations == p.rotations);
        let t0 = q.ticks_to_next_gravity - q.gravity_cost(inputs, rate, inputs_active);
        assert(q.gravity_cost(inputs, rate, inputs_active) == rate);
        assert(t0 == 256 - m * rate);
        assert(t0 > 0);
        assert(gravity_steps(t0) == 0);
        assert(fall(q.rotations, q.rotation, well, q.x as int, q.y as int, 0) == q.y);
        let r = q.spec_gravity(well, inputs, rate, inputs_active).0;
        assert(r.y == q.y);
        assert(r.ticks_to_lock == q.ticks_to_lock);
        assert(r.ticks_to_next_gravity == t0);
        assert(r == with_counter(p, 256 - m * rate));
    }
}

/// Filling cells of the well never removes a collision: whatever collides
/// in `w1` also collides in any well that holds at least its blocks.
pub proof fn lemma_collision_monotone(p: Piece, w1: Well, w2: Well, dx: int, dy: int, r: Rotation)
    requires
        forall|row: int, col: int|
            0 <= row < WELL_ROWS && 0 <= col < WELL_COLS && (#[trigger] w1.blocks[row][col]).is_some()
                ==> w2.blocks[row][col].is_some(),
        p.spec_collides(w1, dx, dy, r),
    ensures
        p.spec_collides(w2, dx, dy, r),
{
    let (ri, ci) = choose|ri: int, ci: int|
        #[trigger] filled(p.rotations, r, ri, ci) && cell_blocked(w1, p.x + dx + ci, p.y + dy + ri);
    assert(filled(p.rotations, r, ri, ci) && cell_blocked(w2, p.x + dx + ci, p.y + dy + ri));
}

/// Gravity ticks compose: `a + b` ticks are `b` ticks after `a` ticks.
proof fn lemma_gravity_ticks_add(p: Piece, well: Well, inputs: Inputs, rate: i32, active: bool, a: nat, b: nat)
    ensures
        gravity_ticks(p, well, inputs, rate, active, a + b) == gravity_ticks(
            gravity_ticks(p, well, inputs, rate, active, a),
            well,
            inputs,
            rate,
            active,
            b,
        ),
    decreases b,
{
    if b > 0 {
        lemma_gravity_ticks_add(p, well, inputs, rate, active, a, (b - 1) as nat);
        assert((a + b - 1) as nat == a + (b - 1) as nat);
    }
}

/// Gravity at `rate` 1/256 rows a tick, with down not held, drops a piece
/// one row per period of `n` ticks (the `n` with `(n-1)*rate < 256 <=
/// n*rate`), `k` periods in a row, as long as each row it drops into is
/// free: after `k` periods it is `k` rows lower, in the same column and
/// orientation, with a full gravity counter.
pub proof fn lemma_gravity_periods(p: Piece, well: Well, inputs: Inputs, rate: i32, inputs_active: bool, n: nat, k: nat)
    requires
        1 <= rate <= 256,
        !(inputs.spec_key_pressed(Input::Down) && inputs_active),
        p.ticks_to_next_gravity == 256,
        forall|j: int| 1 <= j <= k ==> !#[trigger] blocked(p.rotations, p.rotation, well, p.x as int, p.y + j),
        n >= 1,
        (n - 1) * rate < 256 <= n * rate,
    ensures
        ({
            let q = gravity_ticks(p, well, inputs, rate, inputs_active, k * n);
            &&& q.y == p.y + k
            &&& q.x == p.x && q.rotation == p.rotation && q.rotations == p.rotations
            &&& q.ticks_to_next_gravity == 256
        }),
    decreases k,
{
    if k == 0 {
        assert(k * n == 0) by (nonlinear_arith)
            requires
                k == 0,
        ;
    } else {
        let k1 = (k - 1) as nat;
        lemma_gravity_periods(p, well, inputs, rate, inputs_active, n, k1);
        let q = gravity_ticks(p, well, inputs, rate, inputs_active, k1 * n);
        assert(k * n == k1 * n + n) by (nonlinear_arith)
            requires
                k1 == k - 1,
        ;
        lemma_gravity_ticks_add(p, well, inputs, rate, inputs_active, k1 * n, n);
        assert(!blocked(p.rotations, p.rotation, well, p.x as int, p.y + k));
        assert(q.y + 1 == p.y + k);
        lemma_gravity_row_per_ticks(q, well, inputs, rate, inputs_active, n);
    }
}

/// The turn a freshly pressed turn key asks for: clockwise when CW was
/// just pressed, else counter-clockwise.
pub open spec fn asked_turn(p: Piece, inputs: Inputs) -> Rotation {
    if inputs.spec_key_just_pressed(Input::CW) {
        spec_cw(p.rotation)
    } else {
        spec_ccw(p.rotation)
    }
}

/// A turn key turns the piece in place when it fits there; otherwise one
/// column to the right when it fits there; a kick to the left is taken only
/// when both of those are blocked. Wherever the piece ends up it fits, and
/// a refused turn leaves the piece as it was.
pub proof fn lemma_turn_kicks_right_first(p: Piece, well: Well, inputs: Inputs)
    requires
        inputs.spec_key_just_pressed(Input::CW) || inputs.spec_key_just_pressed(Input::CCW),
    ensures
        ({
            let r = asked_turn(p, inputs);
            let q = p.spec_rotate(well, inputs);
            &&& q.y == p.y && q.color == p.color && q.rotations == p.rotations
            &&& q.ticks_to_lock == p.ticks_to_lock && q.ticks_to_next_gravity == p.ticks_to_next_gravity
            &&& !p.spec_collides(well, 0, 0, r) ==> q.rotation == r && q.x == p.x
            &&& p.spec_collides(well, 0, 0, r) && !p.spec_collides(well, 1, 0, r) ==> q.rotation == r && q.x == p.x + 1
            &&& q.x == p.x - 1 ==> q.rotation == r && p.spec_collides(well, 0, 0, r) && p.spec_collides(well, 1, 0, r)
                && !p.spec_collides(well, -1, 0, r)
            &&& q.rotation != r ==> q == p
            &&& q.rotation == r ==> !q.spec_collides(well, 0, 0, r)
        }),
{
    let r = asked_turn(p, inputs);
    if p.spec_collides(well, 0, 0, r) && !p.spec_collides(well, 1, 0, r) {
        lemma_unblocked_bounds(p.rotations, r, well, p.x + 1, p.y as int);
    }
    if p.spec_collides(well, 0, 0, r) && p.spec_collides(well, 1, 0, r) && !p.spec_collides(well, -1, 0, r) {
        lemma_unblocked_bounds(p.rotations, r, well, p.x - 1, p.y as int);
    }
    lemma_rotation_inverse(p.rotation);
}

/// Left, pressed or auto-repeating, moves the piece one column left exactly
/// when the piece one column left, in the same row and orientation, is not
/// blocked; right does the same to the right when left is not pressed. The
/// row below plays no part, and nothing but the column changes.
pub proof fn lemma_shift_to_free_column(p: Piece, well: Well, inputs: Inputs)
    ensures
        ({
            let q = p.spec_horizontal(well, inputs);
            let left = inputs.spec_key_press_or_das(Input::Left, 16);
            let right = inputs.spec_key_press_or_das(Input::Right, 16);
            &&& q.y == p.y && q.rotation == p.rotation && q.rotations == p.rotations && q.color == p.color
            &&& q.ticks_to_lock == p.ticks_to_lock && q.ticks_to_next_gravity == p.ticks_to_next_gravity
            &&& left ==> (q.x == p.x - 1 <==> !blocked(p.rotations, p.rotation, well, p.x - 1, p.y as int))
            &&& left ==> (q.x == p.x <==> blocked(p.rotations, p.rotation, well, p.x - 1, p.y as int))
            &&& !left && right ==> (q.x == p.x + 1 <==> !blocked(p.rotations, p.rotation, well, p.x + 1, p.y as int))
            &&& !left && right ==> (q.x == p.x <==> blocked(p.rotations, p.rotation, well, p.x + 1, p.y as int))
            &&& !left && !right ==> q == p
        }),
{
    if !blocked(p.rotations, p.rotation, well, p.x - 1, p.y as int) {
        lemma_unblocked_bounds(p.rotations, p.rotation, well, p.x - 1, p.y as int);
    }
    if !blocked(p.rotations, p.rotation, well, p.x + 1, p.y as int) {
        lemma_unblocked_bounds(p.rotations, p.rotation, well, p.x + 1, p.y as int);
    }
}

/// More drops allowed never leave the piece higher.
proof fn lemma_fall_more(kind: Rotations, rot: Rotation, well: Well, x: int, y: int, k1: nat, k2: nat)
    requires
        k1 <= k2,
    ensures
        fall(kind, rot, well, x, y, k1) <= fall(kind, rot, well, x, y, k2),
    decreases k1,
{
    if k1 == 0 {
        lemma_fall_moves(kind, rot, well, x, y, k2);
    } else if !blocked(kind, rot, well, x, y + 1) {
        lemma_fall_more(kind, rot, well, x, y + 1, (k1 - 1) as nat, (k2 - 1) as nat);
    }
}

/// Where a gravity tick leaves a piece that starts in `i32` range: at or
/// below its row, and inside the well when it moved.
proof fn lemma_fall_in_range(kind: Rotations, rot: Rotation, well: Well, x: int, y: i32, k: nat)
    ensures
        y <= fall(kind, rot, well, x, y as int, k) <= i32::MAX,
{
    lemma_fall_moves(kind, rot, well, x, y as int, k);
    if fall(kind, rot, well, x, y as int, k) > y {
        lemma_unblocked_bounds(kind, rot, well, x, fall(kind, rot, well, x, y as int, k));
    }
}

/// Holding down makes gravity at least as fast: with down held, a gravity
/// tick with inputs active never leaves the piece higher than the same tick
/// with inputs inactive, which pays only `rate`; and it pays at least 256,
/// so a piece whose row below is free falls at least one row.
pub proof fn lemma_soft_drop_never_slower(p: Piece, well: Well, inputs: Inputs, rate: i32)
    requires
        inputs.spec_key_pressed(Input::Down),
        p.ticks_to_next_gravity <= 256,
    ensures
        p.spec_gravity(well, inputs, rate, true).0.y >= p.spec_gravity(well, inputs, rate, false).0.y,
        p.gravity_cost(inputs, rate, true) >= rate && p.gravity_cost(inputs, rate, true) >= 256,
        !blocked(p.rotations, p.rotation, well, p.x as int, p.y + 1) ==> p.spec_gravity(well, inputs, rate, true).0.y
            >= p.y + 1,
{
    let ta = p.ticks_to_next_gravity - p.gravity_cost(inputs, rate, true);
    let tb = p.ticks_to_next_gravity - p.gravity_cost(inputs, rate, false);
    assert(ta <= tb);
    assert(gravity_steps(ta) >= gravity_steps(tb));
    lemma_fall_more(p.rotations, p.rotation, well, p.x as int, p.y as int, gravity_steps(tb), gravity_steps(ta));
    lemma_fall_in_range(p.rotations, p.rotation, well, p.x as int, p.y, gravity_steps(ta));
    lemma_fall_in_range(p.rotations, p.rotation, well, p.x as int, p.y, gravity_steps(tb));
    assert(ta <= 0);
    assert(gravity_steps(ta) >= 1);
    if !blocked(p.rotations, p.rotation, well, p.x as int, p.y + 1) {
        lemma_fall_more(p.rotations, p.rotation, well, p.x as int, p.y + 1, 0, (gravity_steps(ta) - 1) as nat);
    }
}

} // verus!
