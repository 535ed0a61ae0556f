use vstd::prelude::*;

use crate::input::{Input, Inputs};
use crate::piece::{
    blocked, fall, inside, kind_of, lemma_fall_moves, lemma_fits_inside, lemma_settle_rests, lemma_shape_dims,
    lemma_unblocked_bounds, offset_fits, offset_ok, settle, spec_ccw, spec_cw, Piece, Rotation,
};
use crate::randomizer::{color_of_roll, draw, lcg, roll_of, Randomizer};
use crate::well::{
    cleared, cleared_pairs, commit_rows, full_rows, lemma_commit_keeps_not_full, lemma_full_rows_props,
    no_full_rows, row_empty,
    row_full, Block, Row, Well, WELL_COLS, WELL_ROWS,
};

verus! {

/// What the field is doing: a piece is falling, full rows are being
/// cleared, the next piece is about to enter, or the game is over.
#[derive(Debug, Clone)]
pub enum GameState {
    ActivePiece { piece: Piece },
    ClearDelay { ticks_remaining: i32, rows_to_lower: Vec<i32> },
    PlaceDelay { ticks_remaining: i32 },
    GameOver { ticks_remaining: i32 },
}

/// The gravity, in 1/256 rows per tick, at a level.
pub open spec fn gravity_for(level: u32) -> i32 {
    if level >= 500 {
        5120
    } else if level >= 450 {
        768
    } else if level >= 420 {
        1024
    } else if level >= 400 {
        1280
    } else if level >= 360 {
        1024
    } else if level >= 330 {
        768
    } else if level >= 300 {
        512
    } else if level >= 251 {
        256
    } else if level >= 247 {
        224
    } else if level >= 243 {
        192
    } else if level >= 239 {
        160
    } else if level >= 236 {
        128
    } else if level >= 233 {
        96
    } else if level >= 230 {
        64
    } else if level >= 220 {
        32
    } else if level >= 200 {
        4
    } else if level >= 170 {
        144
    } else if level >= 160 {
        128
    } else if level >= 140 {
        112
    } else if level >= 120 {
        96
    } else if level >= 100 {
        80
    } else if level >= 90 {
        64
    } else if level >= 80 {
        48
    } else if level >= 70 {
        32
    } else if level >= 60 {
        16
    } else if level >= 50 {
        12
    } else if level >= 40 {
        10
    } else if level >= 35 {
        8
    } else if level >= 30 {
        6
    } else {
        4
    }
}

/// The gravity, in 1/256 rows per tick, at a level.
pub fn level_to_gravity(level: u32) -> (g: i32)
    ensures
        g == gravity_for(level),
        4 <= g <= 5120,
{
    if level >= 500 {
        5120
    } else if level >= 450 {
        768
    } else if level >= 420 {
        1024
    } else if level >= 400 {
        1280
    } else if level >= 360 {
        1024
    } else if level >= 330 {
        768
    } else if level >= 300 {
        512
    } else if level >= 251 {
        256
    } else if level >= 247 {
        224
    } else if level >= 243 {
        192
    } else if level >= 239 {
        160
    } else if level >= 236 {
        128
    } else if level >= 233 {
        96
    } else if level >= 230 {
        64
    } else if level >= 220 {
        32
    } else if level >= 200 {
        4
    } else if level >= 170 {
        144
    } else if level >= 160 {
        128
    } else if level >= 140 {
        112
    } else if level >= 120 {
        96
    } else if level >= 100 {
        80
    } else if level >= 90 {
        64
    } else if level >= 80 {
        48
    } else if level >= 70 {
        32
    } else if level >= 60 {
        16
    } else if level >= 50 {
        12
    } else if level >= 40 {
        10
    } else if level >= 35 {
        8
    } else if level >= 30 {
        6
    } else {
        4
    }
}

/// Something the front end should play or show after a tick.
#[derive(Copy, Clone, Debug, PartialEq, Eq, Structural)]
pub enum FieldEvent {
    /// The falling piece has just come to rest.
    Land,
    /// The piece has locked into the well.
    Lock,
    /// At least one row is full and is being cleared.
    LineClear,
    /// A block of a cleared row flies off, from column `x` of row `y`.
    SpawnCube { x: i32, y: i32, color: Block },
    /// A new piece has entered; `color` is that of the following piece.
    BlockSpawn(Block),
}

pub open spec fn land_events(landed: bool) -> Seq<FieldEvent> {
    if landed {
        seq![FieldEvent::Land]
    } else {
        seq![]
    }
}

pub open spec fn tile_color(t: Option<crate::well::Tile>) -> Block {
    match t {
        Some(tile) => tile.color,
        None => Block::Red,
    }
}

/// The cubes of one cleared row, counting columns from the right.
pub open spec fn row_cubes(y: i32, row: Row) -> Seq<FieldEvent> {
    Seq::new(
        WELL_COLS as nat,
        |x: int| FieldEvent::SpawnCube { x: x as i32, y, color: tile_color(row[WELL_COLS - 1 - x]) },
    )
}

/// The cubes of every cleared row, row by row.
pub open spec fn cube_events(pairs: Seq<(i32, Row)>) -> Seq<FieldEvent>
    decreases pairs.len(),
{
    if pairs.len() == 0 {
        seq![]
    } else {
        cube_events(pairs.drop_last()) + row_cubes(pairs.last().0, pairs.last().1)
    }
}

/// A falling piece in a legal place: on no blocked cell, not above the top
/// row, with its counters in range.
pub open spec fn piece_fits(p: Piece, well: Well) -> bool {
    &&& !blocked(p.rotations, p.rotation, well, p.x as int, p.y as int)
    &&& p.y >= 0
    &&& 1 <= p.ticks_to_lock <= 30
    &&& 1 <= p.ticks_to_next_gravity <= 256
}

/// The falling piece after the moves of one tick, and whether it landed.
pub open spec fn active_moves(piece: Piece, well: Well, inputs: Inputs, level: u32) -> (Piece, bool) {
    let p1 = piece.spec_sonic(well, inputs);
    let p2 = p1.spec_rotate(well, inputs);
    let p3 = p2.spec_horizontal(well, inputs);
    p3.spec_gravity(well, inputs, gravity_for(level), true)
}

/// The hard drop, turn, shift and gravity of one tick compute nothing out
/// of range.
pub open spec fn moves_ok(piece: Piece, well: Well, inputs: Inputs, level: u32) -> bool {
    let p1 = piece.spec_sonic(well, inputs);
    let p2 = p1.spec_rotate(well, inputs);
    let p3 = p2.spec_horizontal(well, inputs);
    &&& piece.sonic_ok(inputs)
    &&& p1.rotate_ok(well, inputs)
    &&& p2.horizontal_ok(inputs)
    &&& p3.gravity_ok(well, inputs, gravity_for(level), true)
}

/// A tick of a falling piece computes nothing out of range: its moves, its
/// lock, and the level raised by the rows that the lock fills.
pub open spec fn active_ok(piece: Piece, well: Well, inputs: Inputs, level: u32) -> bool {
    let p = active_moves(piece, well, inputs, level).0;
    &&& moves_ok(piece, well, inputs, level)
    &&& p.lock_ok(well, inputs)
    &&& forall|locked: Well|
        p.spec_lock_now(well, inputs) && #[trigger] p.locked_into(well, locked) ==> level + full_rows(
            locked.blocks@,
        ).len() <= u32::MAX
}

/// The entry of the next piece computes nothing out of range: the level
/// step, the collision test and, when it fits, its gravity step and the
/// deal of the following piece.
pub open spec fn place_ok(next: Piece, well: Well, randomizer: Randomizer, inputs: Inputs, level1: int) -> bool {
    let n = next_turned(next, inputs);
    let level2: int = if level1 % 100 != 99 { level1 + 1 } else { level1 };
    &&& level2 <= u32::MAX
    &&& offset_fits(n.x as int, 0, n.rotations)
    &&& offset_fits(n.y as int, 0, n.rotations)
    &&& !n.spec_collides(well, 0, 0, n.rotation) ==> n.gravity_ok(well, inputs, gravity_for(level2 as u32), false)
        && randomizer.draw_ok()
}

/// The next piece turned by a held turn key while it waits to enter.
pub open spec fn next_turned(next: Piece, inputs: Inputs) -> Piece {
    if inputs.spec_key_pressed(Input::CW) {
        Piece { rotation: spec_cw(next.rotation), ..next }
    } else if inputs.spec_key_pressed(Input::CCW) {
        Piece { rotation: spec_ccw(next.rotation), ..next }
    } else {
        next
    }
}

/// One playfield: the well, the next piece, the level, the state and the
/// piece generator.
pub struct Field {
    pub well: Well,
    pub next: Piece,
    pub level: u32,
    pub state: GameState,
    pub randomizer: Randomizer,
}

impl Field {
    /// The field invariant: no row of the well is full, the next piece waits
    /// at the spawn position with fresh counters, and the state is
    /// consistent.
    pub open spec fn wf(self) -> bool {
        &&& forall|r: int| 0 <= r < WELL_ROWS ==> !row_full(#[trigger] self.well.blocks[r])
        &&& self.next.x == 3 && self.next.y == 0
        &&& self.next.ticks_to_lock == 30 && self.next.ticks_to_next_gravity == 256
        &&& match self.state {
            GameState::ActivePiece { piece } => piece_fits(piece, self.well),
            GameState::ClearDelay { ticks_remaining, rows_to_lower } => {
                &&& ticks_remaining >= 1
                &&& forall|k: int|
                    0 <= k < rows_to_lower@.len() ==> 0 <= #[trigger] rows_to_lower@[k] < WELL_ROWS
            },
            GameState::PlaceDelay { ticks_remaining } => ticks_remaining >= 1,
            GameState::GameOver { ticks_remaining } => ticks_remaining >= 1,
        }
    }

    /// The level after the debug key is handled.
    pub open spec fn level_after_debug(self, inputs: Inputs) -> int {
        if inputs.spec_key_just_pressed(Input::DebugLevel) {
            self.level + 50
        } else {
            self.level as int
        }
    }

    /// Whether the tick computes nothing out of range and indexes nothing
    /// out of bounds, for these inputs: the level after the debug key, the
    /// counter of the state, the moves of the falling piece, the lock, the
    /// level after a clear, the rows to lower and the entry of the next
    /// piece.
    pub open spec fn tick_safe(self, inputs: Inputs) -> bool {
        let level1 = self.level_after_debug(inputs);
        &&& level1 <= u32::MAX
        &&& match self.state {
            GameState::ActivePiece { piece } => active_ok(piece, self.well, inputs, level1 as u32),
            GameState::ClearDelay { ticks_remaining, rows_to_lower } => ticks_remaining > i32::MIN && (
            ticks_remaining - 1 == 0 ==> forall|k: int|
                0 <= k < rows_to_lower@.len() ==> 0 <= #[trigger] rows_to_lower@[k] < WELL_ROWS),
            GameState::PlaceDelay { ticks_remaining } => ticks_remaining > i32::MIN && (ticks_remaining - 1 == 0
                ==> place_ok(self.next, self.well, self.randomizer, inputs, level1)),
            GameState::GameOver { ticks_remaining } => ticks_remaining > i32::MIN,
        }
    }

    /// The field is reset: an empty well, level 0 and the first two pieces
    /// of a fresh generator, the first as next and the second falling.
    pub open spec fn is_fresh(self) -> bool {
        &&& forall|r: int| 0 <= r < WELL_ROWS ==> row_empty(#[trigger] self.well.blocks[r])
        &&& self.level == 0
        &&& Randomizer::spec_new().draw_ok()
        &&& Randomizer::spec_new().drawn().draw_ok()
        &&& self.next == Piece::spec_new(color_of_roll(Randomizer::spec_new().next_roll()))
        &&& self.state == GameState::ActivePiece {
            piece: Piece::spec_new(color_of_roll(Randomizer::spec_new().drawn().next_roll())),
        }
        &&& self.randomizer == Randomizer::spec_new().drawn().drawn()
    }

    /// What one tick does, given the inputs: the field after it and the
    /// events it produces.
    pub open spec fn ticked(self, new: Field, inputs: Inputs, events: Seq<FieldEvent>) -> bool {
        let level1 = self.level_after_debug(inputs);
        match self.state {
            GameState::ActivePiece { piece } => {
                let (p, landed) = active_moves(piece, self.well, inputs, level1 as u32);
                &&& new.next == self.next
                &&& new.randomizer == self.randomizer
                &&& if p.spec_lock_now(self.well, inputs) {
                    exists|locked: Well|
                        #[trigger] p.locked_into(self.well, locked) && {
                            let f = full_rows(locked.blocks@);
                            &&& new.well.blocks@ == cleared(locked.blocks@)
                            &&& if f.len() > 0 {
                                &&& new.level == level1 + f.len()
                                &&& new.state matches GameState::ClearDelay { ticks_remaining, rows_to_lower }
                                    && ticks_remaining == 41 && rows_to_lower@ == f
                                &&& events == land_events(landed) + seq![FieldEvent::Lock, FieldEvent::LineClear]
                                    + cube_events(cleared_pairs(locked.blocks@))
                            } else {
                                &&& new.level == level1
                                &&& new.state == GameState::PlaceDelay { ticks_remaining: 30 }
                                &&& events == land_events(landed) + seq![FieldEvent::Lock]
                            }
                        }
                } else {
                    &&& new.well == self.well
                    &&& new.level == level1
                    &&& new.state == GameState::ActivePiece { piece: p }
                    &&& events == land_events(landed)
                }
            },
            GameState::ClearDelay { ticks_remaining, rows_to_lower } => {
                &&& new.next == self.next
                &&& new.randomizer == self.randomizer
                &&& new.level == level1
                &&& events == Seq::<FieldEvent>::empty()
                &&& if ticks_remaining - 1 == 0 {
                    &&& new.well.blocks@ == commit_rows(self.well.blocks@, rows_to_lower@)
                    &&& new.state == GameState::PlaceDelay { ticks_remaining: 30 }
                } else {
                    &&& new.well == self.well
                    &&& new.state matches GameState::ClearDelay { ticks_remaining: t, rows_to_lower: r }
                        && t == ticks_remaining - 1 && r@ == rows_to_lower@
                }
            },
            GameState::PlaceDelay { ticks_remaining } => {
                &&& new.well == self.well
                &&& if ticks_remaining - 1 != 0 {
                    &&& new.next == self.next
                    &&& new.randomizer == self.randomizer
                    &&& new.level == level1
                    &&& new.state == GameState::PlaceDelay { ticks_remaining: (ticks_remaining - 1) as i32 }
                    &&& events == Seq::<FieldEvent>::empty()
                } else {
                    let n = next_turned(self.next, inputs);
                    let level2: int = if level1 % 100 != 99 { level1 + 1 } else { level1 };
                    &&& new.level == level2
                    &&& if n.spec_collides(self.well, 0, 0, n.rotation) {
                        &&& new.next == n
                        &&& new.randomizer == self.randomizer
                        &&& new.state == GameState::GameOver { ticks_remaining: 300 }
                        &&& events == Seq::<FieldEvent>::empty()
                    } else {
                        let (entered, landed) = n.spec_gravity(self.well, inputs, gravity_for(level2 as u32), false);
                        &&& new.state == GameState::ActivePiece { piece: entered }
                        &&& self.randomizer.next_draw() matches Some((s, r)) && {
                            &&& new.randomizer.seed() == s
                            &&& new.randomizer.history() == [r, self.randomizer.history()[0], self.randomizer.history()[1], self.randomizer.history()[2]]
                            &&& new.next == Piece::spec_new(color_of_roll(r))
                            &&& events == land_events(landed) + seq![FieldEvent::BlockSpawn(color_of_roll(r))]
                        }
                    }
                }
            },
            GameState::GameOver { ticks_remaining } => {
                &&& events == Seq::<FieldEvent>::empty()
                &&& if ticks_remaining - 1 != 0 {
                    &&& new.well == self.well
                    &&& new.next == self.next
                    &&& new.randomizer == self.randomizer
                    &&& new.level == level1
                    &&& new.state == GameState::GameOver { ticks_remaining: (ticks_remaining - 1) as i32 }
                } else {
                    new.is_fresh()
                }
            },
        }
    }
}

/// The hard drop keeps a legal piece legal.
proof fn lemma_sonic_keeps(p: Piece, well: Well, inputs: Inputs)
    requires
        piece_fits(p, well),
    ensures
        piece_fits(p.spec_sonic(well, inputs), well),
        p.spec_sonic(well, inputs).y >= p.y,
{
    lemma_settle_rests(p.rotations, p.rotation, well, p.x as int, p.y as int);
}

/// Turning keeps a legal piece legal.
proof fn lemma_rotate_keeps(p: Piece, well: Well, inputs: Inputs)
    requires
        piece_fits(p, well),
    ensures
        piece_fits(p.spec_rotate(well, inputs), well),
{
}

/// Shifting keeps a legal piece legal.
proof fn lemma_horizontal_keeps(p: Piece, well: Well, inputs: Inputs)
    requires
        piece_fits(p, well),
    ensures
        piece_fits(p.spec_horizontal(well, inputs), well),
{
}

/// Gravity keeps a piece on free cells with its counters in range; its lock
/// delay runs out only while it rests.
proof fn lemma_gravity_keeps(p: Piece, well: Well, inputs: Inputs, rate: i32, inputs_active: bool)
    requires
        piece_fits(p, well),
        rate >= 4,
    ensures
        ({
            let q = p.spec_gravity(well, inputs, rate, inputs_active).0;
            &&& !blocked(q.rotations, q.rotation, well, q.x as int, q.y as int)
            &&& q.y >= p.y
            &&& 1 <= q.ticks_to_next_gravity <= 256
            &&& 0 <= q.ticks_to_lock <= 30
            &&& q.ticks_to_lock == 0 ==> q.spec_collides(well, 0, 1, q.rotation)
            &&& p.ticks_to_lock == 30 ==> q.ticks_to_lock >= 29
        }),
{
    let t0 = p.ticks_to_next_gravity - p.gravity_cost(inputs, rate, inputs_active);
    let k = crate::piece::gravity_steps(t0);
    let y1 = fall(p.rotations, p.rotation, well, p.x as int, p.y as int, k);
    lemma_fall_moves(p.rotations, p.rotation, well, p.x as int, p.y as int, k);
    if y1 > p.y {
        lemma_unblocked_bounds(p.rotations, p.rotation, well, p.x as int, y1);
    }
    assert(p.y <= y1 < 0x8000_0000);
    let q = p.spec_gravity(well, inputs, rate, inputs_active).0;
    assert(q.y == y1);
    assert(p.gravity_cost(inputs, rate, inputs_active) >= 4);
    assert(t0 < p.ticks_to_next_gravity);
}

/// A legal falling piece is far from the `i32` limits in every direction.
proof fn lemma_fits_offsets(p: Piece, well: Well)
    requires
        piece_fits(p, well),
    ensures
        offset_fits(p.x as int, -1, p.rotations),
        offset_fits(p.x as int, 0, p.rotations),
        offset_fits(p.x as int, 1, p.rotations),
        offset_fits(p.y as int, 0, p.rotations),
        offset_fits(p.y as int, 1, p.rotations),
{
    lemma_unblocked_bounds(p.rotations, p.rotation, well, p.x as int, p.y as int);
}

/// A well-formed field whose level is at least 72 below the `u32` limit and
/// whose generator can deal without overflow ticks safely: the invariant
/// keeps every piece, counter and row index of a tick in range.
pub proof fn lemma_wf_tick_safe(f: Field, inputs: Inputs)
    requires
        f.wf(),
        f.level + 72 <= u32::MAX,
        f.randomizer.draw_ok(),
    ensures
        f.tick_safe(inputs),
{
    let level1 = f.level_after_debug(inputs);
    match f.state {
        GameState::ActivePiece { piece } => {
            let well = f.well;
            let p1 = piece.spec_sonic(well, inputs);
            let p2 = p1.spec_rotate(well, inputs);
            let p3 = p2.spec_horizontal(well, inputs);
            let g = gravity_for(level1 as u32);
            lemma_fits_offsets(piece, well);
            lemma_sonic_keeps(piece, well, inputs);
            lemma_fits_offsets(p1, well);
            lemma_rotate_keeps(p1, well, inputs);
            lemma_fits_offsets(p2, well);
            lemma_horizontal_keeps(p2, well, inputs);
            lemma_fits_offsets(p3, well);
            assert(4 <= g <= 5120);
            lemma_gravity_keeps(p3, well, inputs, g, true);
            let p = p3.spec_gravity(well, inputs, g, true).0;
            lemma_unblocked_bounds(p.rotations, p.rotation, well, p.x as int, p.y as int);
            lemma_fits_inside(p.rotations, p.rotation, well, p.x as int, p.y as int);
            assert forall|locked: Well|
                p.spec_lock_now(well, inputs) && #[trigger] p.locked_into(well, locked) implies level1 as u32
                + full_rows(locked.blocks@).len() <= u32::MAX by {
                lemma_full_rows_props(locked.blocks@);
            }
        },
        GameState::PlaceDelay { ticks_remaining } => {
            let n = next_turned(f.next, inputs);
            let level2: int = if level1 % 100 != 99 { level1 + 1 } else { level1 };
            if !n.spec_collides(f.well, 0, 0, n.rotation) {
                assert(piece_fits(n, f.well));
                lemma_fits_offsets(n, f.well);
                assert(4 <= gravity_for(level2 as u32) <= 5120);
            }
        },
        _ => {},
    }
}

/// The next piece enters turned by a held turn key: clockwise when CW is
/// held, counter-clockwise when only CCW is held (R0 becomes R270), as it
/// was otherwise; its kind is kept, and a held key never turns it the other
/// way. This holds whether it enters as the falling piece or, blocked,
/// stays as the next piece of a game that is over.
pub proof fn lemma_entry_turns_with_held_key(f: Field, new: Field, inputs: Inputs, events: Seq<FieldEvent>)
    requires
        f.state == (GameState::PlaceDelay { ticks_remaining: 1 }),
        f.ticked(new, inputs, events),
    ensures
        ({
            let cw = inputs.spec_key_pressed(Input::CW);
            let ccw = inputs.spec_key_pressed(Input::CCW);
            let want = if cw {
                spec_cw(f.next.rotation)
            } else if ccw {
                spec_ccw(f.next.rotation)
            } else {
                f.next.rotation
            };
            &&& new.state matches GameState::ActivePiece { piece } ==> piece.rotation == want && piece.rotations
                == f.next.rotations
            &&& new.state is GameOver ==> new.next.rotation == want && new.next.rotations == f.next.rotations
            &&& !cw && ccw ==> want != spec_cw(f.next.rotation)
            &&& new.state is ActivePiece || new.state is GameOver
        }),
{
}

/// The two pieces a fresh generator deals first.
proof fn lemma_fresh_draws()
    ensures
        draw(10u32, [1u8, 1, 2, 2], 5) == Some((1106733399u32, 4u8)),
        draw_after_first() == Some((3955787362u32, 6u8)),
{
    let h1 = [1u8, 1, 2, 2];
    let h2 = [4u8, 1, 1, 2];
    lemma_lcg_facts();
    assert(draw(581309142u32, h1, 3) == Some((1106733399u32, 4u8)));
    assert(draw(1849040536u32, h1, 4) == Some((1106733399u32, 4u8)));
    assert(draw(10u32, h1, 5) == Some((1106733399u32, 4u8)));
    assert(draw(1321378093u32, h2, 4) == Some((3955787362u32, 6u8)));
    assert(draw(1106733399u32, h2, 5) == Some((3955787362u32, 6u8)));
}

proof fn lemma_lcg_facts()
    ensures
        lcg(10u32) == Some(2445230203u32),
        lcg(2445230203u32) == Some(1849040536u32),
        lcg(1849040536u32) == Some(2884470513u32),
        lcg(2884470513u32) == Some(581309142u32),
        lcg(581309142u32) == Some(1106733399u32),
        lcg(1106733399u32) == Some(146443332u32),
        lcg(146443332u32) == Some(1321378093u32),
        lcg(1321378093u32) == Some(3955787362u32),
        roll_of(2445230203u32) == 1,
        roll_of(2884470513u32) == 1,
        roll_of(1106733399u32) == 4,
        roll_of(146443332u32) == 4,
        roll_of(3955787362u32) == 6,
{
    assert((10int * 0x41C64E6D) % 0x1_0000_0000 + 0x3039 == 2445230203) by (nonlinear_arith);
    lemma_lcg_step(10u32, 2445230203u32);
    assert((2445230203int * 0x41C64E6D) % 0x1_0000_0000 + 0x3039 == 1849040536) by (nonlinear_arith);
    lemma_lcg_step(2445230203u32, 1849040536u32);
    assert((1849040536int * 0x41C64E6D) % 0x1_0000_0000 + 0x3039 == 2884470513) by (nonlinear_arith);
    lemma_lcg_step(1849040536u32, 2884470513u32);
    assert((2884470513int * 0x41C64E6D) % 0x1_0000_0000 + 0x3039 == 581309142) by (nonlinear_arith);
    lemma_lcg_step(2884470513u32, 581309142u32);
    assert((581309142int * 0x41C64E6D) % 0x1_0000_0000 + 0x3039 == 1106733399) by (nonlinear_arith);
    lemma_lcg_step(581309142u32, 1106733399u32);
    assert((1106733399int * 0x41C64E6D) % 0x1_0000_0000 + 0x3039 == 146443332) by (nonlinear_arith);
    lemma_lcg_step(1106733399u32, 146443332u32);
    assert((146443332int * 0x41C64E6D) % 0x1_0000_0000 + 0x3039 == 1321378093) by (nonlinear_arith);
    lemma_lcg_step(146443332u32, 1321378093u32);
    assert((1321378093int * 0x41C64E6D) % 0x1_0000_0000 + 0x3039 == 3955787362) by (nonlinear_arith);
    lemma_lcg_step(1321378093u32, 3955787362u32);
    assert(((2445230203int / 1024) % 32768) % 7 == 1) by (nonlinear_arith);
    lemma_roll_value(2445230203u32, 1u8);
    assert(((2884470513int / 1024) % 32768) % 7 == 1) by (nonlinear_arith);
    lemma_roll_value(2884470513u32, 1u8);
    assert(((1106733399int / 1024) % 32768) % 7 == 4) by (nonlinear_arith);
    lemma_roll_value(1106733399u32, 4u8);
    assert(((146443332int / 1024) % 32768) % 7 == 4) by (nonlinear_arith);
    lemma_roll_value(146443332u32, 4u8);
    assert(((3955787362int / 1024) % 32768) % 7 == 6) by (nonlinear_arith);
    lemma_roll_value(3955787362u32, 6u8);
}

proof fn lemma_lcg_step(seed: u32, next: u32)
    requires
        (seed as int * 0x41C64E6D) % 0x1_0000_0000 + 0x3039 == next,
    ensures
        lcg(seed) == Some(next),
{
}

proof fn lemma_roll_value(seed: u32, r: u8)
    requires
        ((seed as int / 1024) % 32768) % 7 == r,
    ensures
        roll_of(seed) == r,
{
}

spec fn draw_after_first() -> Option<(u32, u8)> {
    draw(1106733399u32, [4u8, 1, 1, 2], 5)
}

impl Field {
    /// A fresh field: an empty well, level 0, and the first two pieces of a
    /// new generator, the first waiting as next and the second falling.
    pub fn new() -> (f: Field)
        ensures
            f.is_fresh(),
            f.wf(),
    {
        let mut randomizer = Randomizer::new();
        proof {
            lemma_fresh_draws();
        }
        let well = Well::new();
        let next = randomizer.next_piece();
        let piece = randomizer.next_piece();
        let f = Field { well, next, level: 0, state: GameState::ActivePiece { piece }, randomizer };
        proof {
            assert forall|r: int| 0 <= r < WELL_ROWS implies !row_full(#[trigger] f.well.blocks[r]) by {
                assert(f.well.blocks[r][0].is_none());
            }
            lemma_shape_dims(kind_of(Block::Cyan), Rotation::R0);
            assert(!blocked(kind_of(Block::Cyan), Rotation::R0, f.well, 3, 0));
        }
        f
    }

    /// Whether the field satisfies `wf`.
    pub fn check_wf(&self) -> (b: bool)
        ensures
            b == self.wf(),
    {
        let mut r: usize = 0;
        while r < WELL_ROWS
            invariant
                r <= WELL_ROWS,
                forall|j: int| 0 <= j < r ==> !row_full(#[trigger] self.well.blocks[j]),
            decreases WELL_ROWS - r,
        {
            let row = self.well.blocks[r];
            let mut c: usize = 0;
            let mut all = true;
            while c < WELL_COLS
                invariant
                    c <= WELL_COLS,
                    all == (forall|j: int| 0 <= j < c ==> (#[trigger] row[j]).is_some()),
                decreases WELL_COLS - c,
            {
                if row[c].is_none() {
                    all = false;
                }
                c += 1;
            }
            if all {
                assert(row_full(self.well.blocks[r as int]));
                return false;
            }
            r += 1;
        }
        if !(self.next.x == 3 && self.next.y == 0 && self.next.ticks_to_lock == 30
            && self.next.ticks_to_next_gravity == 256) {
            return false;
        }
        match &self.state {
            GameState::ActivePiece { piece } => {
                if piece.x < -4 || piece.x > 10 || piece.y < 0 || piece.y > 21 {
                    proof {
                        if !blocked(piece.rotations, piece.rotation, self.well, piece.x as int, piece.y as int) {
                            lemma_unblocked_bounds(piece.rotations, piece.rotation, self.well, piece.x as int, piece.y as int);
                        }
                    }
                    return false;
                }
                !piece.collides_with(&self.well, 0, 0, piece.rotation) && 1 <= piece.ticks_to_lock
                    && piece.ticks_to_lock <= 30 && 1 <= piece.ticks_to_next_gravity
                    && piece.ticks_to_next_gravity <= 256
            },
            GameState::ClearDelay { ticks_remaining, rows_to_lower } => {
                if *ticks_remaining < 1 {
                    return false;
                }
                let mut k: usize = 0;
                while k < rows_to_lower.len()
                    invariant
                        k <= rows_to_lower@.len(),
                        self.state is ClearDelay,
                        self.state->rows_to_lower@ == rows_to_lower@,
                        forall|j: int| 0 <= j < k ==> 0 <= #[trigger] rows_to_lower@[j] < WELL_ROWS,
                    decreases rows_to_lower@.len() - k,
                {
                    if rows_to_lower[k] < 0 || rows_to_lower[k] >= WELL_ROWS as i32 {
                        proof {
                            let rows = rows_to_lower@;
                            assert(!(0 <= rows[k as int] < WELL_ROWS));
                            assert(!(0 <= self.state->rows_to_lower@[k as int] < WELL_ROWS));
                        }
                        return false;
                    }
                    k += 1;
                }
                true
            },
            GameState::PlaceDelay { ticks_remaining } => *ticks_remaining >= 1,
            GameState::GameOver { ticks_remaining } => *ticks_remaining >= 1,
        }
    }

    /// Whether `tick` with these inputs computes nothing out of range and
    /// indexes nothing out of bounds.
    pub fn tick_is_safe(&self, inputs: &Inputs) -> (b: bool)
        ensures
            b == self.tick_safe(*inputs),
    {
        let level1: u64 = if inputs.key_just_pressed(Input::DebugLevel) {
            self.level as u64 + 50
        } else {
            self.level as u64
        };
        if level1 > u32::MAX as u64 {
            return false;
        }
        let level1 = level1 as u32;
        match &self.state {
            GameState::ActivePiece { piece } => active_is_ok(*piece, &self.well, inputs, level1),
            GameState::ClearDelay { ticks_remaining, rows_to_lower } => {
                if *ticks_remaining == i32::MIN {
                    return false;
                }
                if *ticks_remaining - 1 != 0 {
                    return true;
                }
                rows_in_range(rows_to_lower)
            },
            GameState::PlaceDelay { ticks_remaining } => {
                if *ticks_remaining == i32::MIN {
                    return false;
                }
                if *ticks_remaining - 1 != 0 {
                    return true;
                }
                place_is_ok(self.next, &self.well, &self.randomizer, inputs, level1)
            },
            GameState::GameOver { ticks_remaining } => *ticks_remaining != i32::MIN,
        }
    }

    /// Advances the field by one tick of 1/60 s and returns what the front
    /// end should play or show. A well-formed field stays well-formed.
    pub fn tick(&mut self, inputs: &Inputs) -> (events: Vec<FieldEvent>)
        requires
            old(self).tick_safe(*inputs),
        ensures
            old(self).wf() ==> final(self).wf(),
            old(self).ticked(*final(self), *inputs, events@),
    {
        if inputs.key_just_pressed(Input::DebugLevel) {
            self.level = self.level + 50;
        }
        let mut state = GameState::GameOver { ticks_remaining: 1 };
        std::mem::swap(&mut state, &mut self.state);
        let (new_state, events) = match state {
            GameState::ActivePiece { piece } => self.tick_active(piece, inputs),
            GameState::ClearDelay { ticks_remaining, rows_to_lower } => self.tick_clear(ticks_remaining, rows_to_lower),
            GameState::PlaceDelay { ticks_remaining } => self.tick_place(ticks_remaining, inputs),
            GameState::GameOver { ticks_remaining } => self.tick_game_over(ticks_remaining),
        };
        self.state = new_state;
        events
    }

    fn tick_clear(&mut self, ticks_remaining: i32, rows_to_lower: Vec<i32>) -> (out: (GameState, Vec<FieldEvent>))
        requires
            ticks_remaining > i32::MIN,
            ticks_remaining - 1 == 0 ==> forall|k: int|
                0 <= k < rows_to_lower@.len() ==> 0 <= #[trigger] rows_to_lower@[k] < WELL_ROWS,
        ensures
            final(self).next == old(self).next,
            final(self).randomizer == old(self).randomizer,
            final(self).level == old(self).level,
            out.1@ == Seq::<FieldEvent>::empty(),
            no_full_rows(old(self).well) ==> no_full_rows(final(self).well),
            if ticks_remaining - 1 == 0 {
                &&& final(self).well.blocks@ == commit_rows(old(self).well.blocks@, rows_to_lower@)
                &&& out.0 == GameState::PlaceDelay { ticks_remaining: 30 }
            } else {
                &&& final(self).well == old(self).well
                &&& out.0 matches GameState::ClearDelay { ticks_remaining: t, rows_to_lower: r }
                    && t == ticks_remaining - 1 && r@ == rows_to_lower@
            },
    {
        let ticks = ticks_remaining - 1;
        if ticks == 0 {
            let ghost before = self.well.blocks@;
            self.well.commit_clear(&rows_to_lower);
            proof {
                if no_full_rows(old(self).well) {
                    assert forall|s: int| 0 <= s < before.len() implies !row_full(#[trigger] before[s]) by {
                        assert(before[s] == old(self).well.blocks[s]);
                    }
                    lemma_commit_keeps_not_full(before, rows_to_lower@);
                    assert forall|r: int| 0 <= r < WELL_ROWS implies !row_full(#[trigger] self.well.blocks[r]) by {
                        assert(self.well.blocks[r] == self.well.blocks@[r]);
                    }
                }
            }
            (GameState::PlaceDelay { ticks_remaining: 30 }, Vec::new())
        } else {
            (GameState::ClearDelay { ticks_remaining: ticks, rows_to_lower }, Vec::new())
        }
    }

    fn tick_place(&mut self, ticks_remaining: i32, inputs: &Inputs) -> (out: (GameState, Vec<FieldEvent>))
        requires
            ticks_remaining > i32::MIN,
            ticks_remaining - 1 == 0 ==> place_ok(
                old(self).next,
                old(self).well,
                old(self).randomizer,
                *inputs,
                old(self).level as int,
            ),
        ensures
            final(self).well == old(self).well,
            spawn_ready(old(self).next) ==> spawn_ready(final(self).next),
            if ticks_remaining - 1 != 0 {
                &&& final(self).next == old(self).next
                &&& final(self).randomizer == old(self).randomizer
                &&& final(self).level == old(self).level
                &&& out.0 == GameState::PlaceDelay { ticks_remaining: (ticks_remaining - 1) as i32 }
                &&& out.1@ == Seq::<FieldEvent>::empty()
            } else {
                let n = next_turned(old(self).next, *inputs);
                let level2: int = if old(self).level % 100 != 99 { old(self).level + 1 } else { old(self).level as int };
                &&& final(self).level == level2
                &&& if n.spec_collides(old(self).well, 0, 0, n.rotation) {
                    &&& final(self).next == n
                    &&& final(self).randomizer == old(self).randomizer
                    &&& out.0 == GameState::GameOver { ticks_remaining: 300 }
                    &&& out.1@ == Seq::<FieldEvent>::empty()
                } else {
                    let (entered, landed) = n.spec_gravity(old(self).well, *inputs, gravity_for(level2 as u32), false);
                    &&& out.0 == GameState::ActivePiece { piece: entered }
                    &&& spawn_ready(old(self).next) ==> piece_fits(entered, old(self).well)
                    &&& old(self).randomizer.next_draw() matches Some((s, r)) && {
                        &&& final(self).randomizer.seed() == s
                        &&& final(self).randomizer.history() == [r, old(self).randomizer.history()[0], old(self).randomizer.history()[1], old(self).randomizer.history()[2]]
                        &&& final(self).next == Piece::spec_new(color_of_roll(r))
                        &&& out.1@ == land_events(landed) + seq![FieldEvent::BlockSpawn(color_of_roll(r))]
                    }
                }
            },
    {
        let ticks = ticks_remaining - 1;
        if ticks != 0 {
            return (GameState::PlaceDelay { ticks_remaining: ticks }, Vec::new());
        }
        if inputs.key_pressed(Input::CW) {
            self.next.rotation = self.next.rotation.cw();
        } else if inputs.key_pressed(Input::CCW) {
            self.next.rotation = self.next.rotation.ccw();
        }
        if self.level % 100 != 99 {
            self.level = self.level + 1;
        }
        if self.next.collides_with(&self.well, 0, 0, self.next.rotation) {
            (GameState::GameOver { ticks_remaining: 300 }, Vec::new())
        } else {
            self.enter_next(inputs)
        }
    }

    /// The next piece enters (after one gravity step) and the generator deals
    /// the following one.
    #[verifier::rlimit(50)]
    fn enter_next(&mut self, inputs: &Inputs) -> (out: (GameState, Vec<FieldEvent>))
        requires
            old(self).next.gravity_ok(old(self).well, *inputs, gravity_for(old(self).level), false),
            old(self).randomizer.draw_ok(),
        ensures
            final(self).well == old(self).well,
            final(self).level == old(self).level,
            spawn_ready(final(self).next),
            ({
                let (entered, landed) = old(self).next.spec_gravity(old(self).well, *inputs, gravity_for(old(self).level), false);
                &&& out.0 == GameState::ActivePiece { piece: entered }
                &&& piece_fits(old(self).next, old(self).well) && old(self).next.ticks_to_lock == 30 ==> piece_fits(
                    entered,
                    old(self).well,
                )
                &&& old(self).randomizer.next_draw() matches Some((s, r)) && {
                    &&& final(self).randomizer.seed() == s
                    &&& final(self).randomizer.history() == [r, old(self).randomizer.history()[0], old(self).randomizer.history()[1], old(self).randomizer.history()[2]]
                    &&& final(self).next == Piece::spec_new(color_of_roll(r))
                    &&& out.1@ == land_events(landed) + seq![FieldEvent::BlockSpawn(color_of_roll(r))]
                }
            }),
    {
        let g = level_to_gravity(self.level);
        proof {
            if piece_fits(self.next, self.well) {
                lemma_gravity_keeps(self.next, self.well, *inputs, g, false);
            }
        }
        let landed = self.next.do_gravity(&self.well, inputs, g, false);
        let entered = self.next;
        self.next = self.randomizer.next_piece();
        let mut events: Vec<FieldEvent> = Vec::new();
        if landed {
            events.push(FieldEvent::Land);
        }
        events.push(FieldEvent::BlockSpawn(self.next.color));
        assert(events@ =~= land_events(landed) + seq![FieldEvent::BlockSpawn(self.next.color)]);
        (GameState::ActivePiece { piece: entered }, events)
    }

    fn tick_game_over(&mut self, ticks_remaining: i32) -> (out: (GameState, Vec<FieldEvent>))
        requires
            ticks_remaining > i32::MIN,
        ensures
            out.1@ == Seq::<FieldEvent>::empty(),
            if ticks_remaining - 1 != 0 {
                &&& final(self).well == old(self).well
                &&& final(self).next == old(self).next
                &&& final(self).randomizer == old(self).randomizer
                &&& final(self).level == old(self).level
                &&& out.0 == GameState::GameOver { ticks_remaining: (ticks_remaining - 1) as i32 }
            } else {
                Field { state: out.0, ..*final(self) }.is_fresh() && Field { state: out.0, ..*final(self) }.wf()
            },
    {
        let ticks = ticks_remaining - 1;
        if ticks == 0 {
            let fresh = Field::new();
            self.well = fresh.well;
            self.next = fresh.next;
            self.randomizer = fresh.randomizer;
            self.level = 0;
            (fresh.state, Vec::new())
        } else {
            (GameState::GameOver { ticks_remaining: ticks }, Vec::new())
        }
    }

    fn tick_active(&mut self, piece: Piece, inputs: &Inputs) -> (out: (GameState, Vec<FieldEvent>))
        requires
            active_ok(piece, old(self).well, *inputs, old(self).level),
        ensures
            final(self).next == old(self).next,
            final(self).randomizer == old(self).randomizer,
            ({
                let (p, landed) = active_moves(piece, old(self).well, *inputs, old(self).level);
                let events = out.1@;
                if p.spec_lock_now(old(self).well, *inputs) {
                    &&& no_full_rows(final(self).well)
                    &&& exists|locked: Well|
                        #[trigger] p.locked_into(old(self).well, locked) && {
                            let f = full_rows(locked.blocks@);
                            &&& final(self).well.blocks@ == cleared(locked.blocks@)
                            &&& if f.len() > 0 {
                                &&& final(self).level == old(self).level + f.len()
                                &&& out.0 matches GameState::ClearDelay { ticks_remaining, rows_to_lower }
                                    && ticks_remaining == 41 && rows_to_lower@ == f
                                    && forall|k: int| 0 <= k < rows_to_lower@.len() ==> 0 <= #[trigger] rows_to_lower@[k] < WELL_ROWS
                                &&& events == land_events(landed) + seq![FieldEvent::Lock, FieldEvent::LineClear]
                                    + cube_events(cleared_pairs(locked.blocks@))
                            } else {
                                &&& final(self).level == old(self).level
                                &&& out.0 == GameState::PlaceDelay { ticks_remaining: 30 }
                                &&& events == land_events(landed) + seq![FieldEvent::Lock]
                            }
                        }
                } else {
                    &&& final(self).well == old(self).well
                    &&& final(self).level == old(self).level
                    &&& out.0 == GameState::ActivePiece { piece: p }
                    &&& piece_fits(piece, old(self).well) ==> piece_fits(p, old(self).well)
                    &&& events == land_events(landed)
                }
            }),
    {
        let (p, landed) = move_piece(piece, &self.well, inputs, self.level);
        let mut events: Vec<FieldEvent> = Vec::new();
        if landed {
            events.push(FieldEvent::Land);
        }
        let ghost events0 = events@;
        let ghost well0 = self.well;
        if p.do_lock(&mut self.well, inputs) {
            let ghost locked = self.well;
            events.push(FieldEvent::Lock);
            let cleared_rows = self.well.do_clear();
            proof {
                lemma_full_rows_props(locked.blocks@);
                assert forall|r: int| 0 <= r < WELL_ROWS implies !row_full(#[trigger] self.well.blocks[r]) by {
                    assert(self.well.blocks@[r] == cleared(locked.blocks@)[r]);
                    if row_full(locked.blocks@[r]) {
                        assert(self.well.blocks[r][0].is_none());
                    }
                }
                assert(p.locked_into(well0, locked));
            }
            if cleared_rows.len() > 0 {
                events.push(FieldEvent::LineClear);
                assert(cleared_rows@.len() == full_rows(locked.blocks@).len());
                self.level = self.level + cleared_rows.len() as u32;
                let (rows_to_lower, mut cubes) = collect_cleared(&cleared_rows);
                events.append(&mut cubes);
                assert(events@ =~= events0 + seq![FieldEvent::Lock, FieldEvent::LineClear] + cube_events(
                    cleared_pairs(locked.blocks@),
                ));
                assert(rows_to_lower@ =~= full_rows(locked.blocks@));
                (GameState::ClearDelay { ticks_remaining: 41, rows_to_lower }, events)
            } else {
                assert(events@ =~= events0 + seq![FieldEvent::Lock]);
                (GameState::PlaceDelay { ticks_remaining: 30 }, events)
            }
        } else {
            (GameState::ActivePiece { piece: p }, events)
        }
    }
}

/// The next piece waits at the spawn position with fresh counters.
pub open spec fn spawn_ready(next: Piece) -> bool {
    next.x == 3 && next.y == 0 && next.ticks_to_lock == 30 && next.ticks_to_next_gravity == 256
}

/// The moves of one tick applied to the falling piece: hard drop, turn,
/// shift, gravity.
fn move_piece(piece: Piece, well: &Well, inputs: &Inputs, level: u32) -> (out: (Piece, bool))
    requires
        moves_ok(piece, *well, *inputs, level),
    ensures
        out == active_moves(piece, *well, *inputs, level),
        piece_fits(piece, *well) ==> {
            &&& !blocked(out.0.rotations, out.0.rotation, *well, out.0.x as int, out.0.y as int)
            &&& out.0.y >= 0
            &&& 1 <= out.0.ticks_to_next_gravity <= 256
            &&& 0 <= out.0.ticks_to_lock <= 30
            &&& out.0.ticks_to_lock == 0 ==> out.0.spec_collides(*well, 0, 1, out.0.rotation)
        },
{
    let g = level_to_gravity(level);
    proof {
        if piece_fits(piece, *well) {
            let p1 = piece.spec_sonic(*well, *inputs);
            lemma_sonic_keeps(piece, *well, *inputs);
            let p2 = p1.spec_rotate(*well, *inputs);
            lemma_rotate_keeps(p1, *well, *inputs);
            let p3 = p2.spec_horizontal(*well, *inputs);
            lemma_horizontal_keeps(p2, *well, *inputs);
            lemma_gravity_keeps(p3, *well, *inputs, g, true);
        }
    }
    let mut p = piece;
    p.do_sonic(well, inputs);
    p.do_rotate(well, inputs);
    p.do_horizontal(well, inputs);
    let landed = p.do_gravity(well, inputs, g, true);
    (p, landed)
}

/// Whether every row index lies in the well.
fn rows_in_range(rows: &Vec<i32>) -> (b: bool)
    ensures
        b == forall|k: int| 0 <= k < rows@.len() ==> 0 <= #[trigger] rows@[k] < WELL_ROWS,
{
    let mut k: usize = 0;
    while k < rows.len()
        invariant
            k <= rows@.len(),
            forall|j: int| 0 <= j < k ==> 0 <= #[trigger] rows@[j] < WELL_ROWS,
        decreases rows@.len() - k,
    {
        if rows[k] < 0 || rows[k] >= WELL_ROWS as i32 {
            return false;
        }
        k += 1;
    }
    true
}

/// Whether `place_ok` holds.
fn place_is_ok(next: Piece, well: &Well, randomizer: &Randomizer, inputs: &Inputs, level1: u32) -> (b: bool)
    ensures
        b == place_ok(next, *well, *randomizer, *inputs, level1 as int),
{
    let mut n = next;
    if inputs.key_pressed(Input::CW) {
        n.rotation = n.rotation.cw();
    } else if inputs.key_pressed(Input::CCW) {
        n.rotation = n.rotation.ccw();
    }
    assert(n == next_turned(next, *inputs));
    if level1 % 100 != 99 && level1 == u32::MAX {
        return false;
    }
    let level2 = if level1 % 100 != 99 { level1 + 1 } else { level1 };
    if !(offset_ok(n.x, 0, n.rotations) && offset_ok(n.y, 0, n.rotations)) {
        return false;
    }
    if n.collides_with(well, 0, 0, n.rotation) {
        return true;
    }
    let g = level_to_gravity(level2);
    n.gravity_is_ok(well, inputs, g, false) && randomizer.can_draw()
}

/// Two wells that a piece can lock into from the same well have the same
/// full rows.
proof fn lemma_locked_same_rows(p: Piece, before: Well, a: Well, b: Well)
    requires
        p.locked_into(before, a),
        p.locked_into(before, b),
    ensures
        full_rows(a.blocks@) == full_rows(b.blocks@),
{
    assert forall|r: int| 0 <= r < a.blocks@.len() implies row_full(#[trigger] a.blocks@[r]) == row_full(b.blocks@[r]) by {
        assert forall|c: int| 0 <= c < WELL_COLS implies (#[trigger] a.blocks@[r][c]).is_some() == b.blocks@[r][c].is_some() by {
            assert(a.blocks[r][c] == a.blocks@[r][c]);
            assert(b.blocks[r][c] == b.blocks@[r][c]);
        }
    }
    lemma_full_rows_same(a.blocks@, b.blocks@);
}

proof fn lemma_full_rows_same(s1: Seq<Row>, s2: Seq<Row>)
    requires
        s1.len() == s2.len(),
        forall|i: int| 0 <= i < s1.len() ==> row_full(#[trigger] s1[i]) == row_full(s2[i]),
    ensures
        full_rows(s1) == full_rows(s2),
    decreases s1.len(),
{
    if s1.len() > 0 {
        assert forall|i: int| 0 <= i < s1.drop_last().len() implies row_full(#[trigger] s1.drop_last()[i]) == row_full(
            s2.drop_last()[i],
        ) by {
            assert(s1.drop_last()[i] == s1[i]);
            assert(s2.drop_last()[i] == s2[i]);
        }
        lemma_full_rows_same(s1.drop_last(), s2.drop_last());
        assert(row_full(s1[s1.len() - 1]) == row_full(s2[s2.len() - 1]));
    }
}

/// Whether `active_ok` holds.
fn active_is_ok(piece: Piece, well: &Well, inputs: &Inputs, level: u32) -> (b: bool)
    ensures
        b == active_ok(piece, *well, *inputs, level),
{
    let mut p = piece;
    if !p.sonic_is_ok(inputs) {
        return false;
    }
    p.do_sonic(well, inputs);
    if !p.rotate_is_ok(well, inputs) {
        return false;
    }
    p.do_rotate(well, inputs);
    if !p.horizontal_is_ok(inputs) {
        return false;
    }
    p.do_horizontal(well, inputs);
    let g = level_to_gravity(level);
    if !p.gravity_is_ok(well, inputs, g, true) {
        return false;
    }
    p.do_gravity(well, inputs, g, true);
    assert(p == active_moves(piece, *well, *inputs, level).0);
    if !p.lock_is_ok(well, inputs) {
        return false;
    }
    let mut copy = Well { blocks: well.blocks };
    assert(copy == *well);
    if p.do_lock(&mut copy, inputs) {
        let ghost locked = copy;
        let rows = copy.do_clear();
        proof {
            lemma_full_rows_props(locked.blocks@);
            assert forall|other: Well|
                p.spec_lock_now(*well, *inputs) && #[trigger] p.locked_into(*well, other) implies full_rows(other.blocks@)
                == full_rows(locked.blocks@) by {
                lemma_locked_same_rows(p, *well, other, locked);
            }
        }
        assert(rows@.len() == full_rows(locked.blocks@).len());
        level as u64 + rows.len() as u64 <= u32::MAX as u64
    } else {
        true
    }
}

/// The indices of the cleared rows and the cubes that fly off them.
fn collect_cleared(cleared_rows: &Vec<(i32, Row)>) -> (out: (Vec<i32>, Vec<FieldEvent>))
    requires
        forall|k: int| 0 <= k < cleared_rows@.len() ==> row_full(#[trigger] cleared_rows@[k].1),
    ensures
        out.0@ == cleared_rows@.map_values(|p: (i32, Row)| p.0),
        out.1@ == cube_events(cleared_rows@),
{
    let mut rows_to_lower: Vec<i32> = Vec::new();
    let mut events: Vec<FieldEvent> = Vec::new();
    let mut k: usize = 0;
    while k < cleared_rows.len()
        invariant
            k <= cleared_rows@.len(),
            forall|j: int| 0 <= j < cleared_rows@.len() ==> row_full(#[trigger] cleared_rows@[j].1),
            rows_to_lower@ == cleared_rows@.take(k as int).map_values(|p: (i32, Row)| p.0),
            events@ == cube_events(cleared_rows@.take(k as int)),
        decreases cleared_rows@.len() - k,
    {
        let y = cleared_rows[k].0;
        let row = cleared_rows[k].1;
        assert(row_full(cleared_rows@[k as int].1));
        rows_to_lower.push(y);
        let ghost start_row = events@;
        let mut x: usize = 0;
        while x < WELL_COLS
            invariant
                x <= WELL_COLS,
                row_full(row),
                events@ == start_row + row_cubes(y, row).take(x as int),
            decreases WELL_COLS - x,
        {
            let color = match row[WELL_COLS - 1 - x] {
                Some(t) => t.color,
                None => {
                    proof {
                        assert(row[WELL_COLS - 1 - x].is_some());
                    }
                    Block::Red
                },
            };
            events.push(FieldEvent::SpawnCube { x: x as i32, y, color });
            assert(row_cubes(y, row).take(x + 1) =~= row_cubes(y, row).take(x as int).push(
                FieldEvent::SpawnCube { x: x as i32, y, color },
            ));
            x += 1;
        }
        assert(row_cubes(y, row).take(WELL_COLS as int) =~= row_cubes(y, row));
        assert(cleared_rows@.take(k + 1).drop_last() =~= cleared_rows@.take(k as int));
        assert(rows_to_lower@ =~= cleared_rows@.take(k + 1).map_values(|p: (i32, Row)| p.0));
        k += 1;
    }
    assert(cleared_rows@.take(cleared_rows@.len() as int) =~= cleared_rows@);
    (rows_to_lower, events)
}

} // verus!
