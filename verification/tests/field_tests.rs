use edrefis::field::{level_to_gravity, Field, FieldEvent, GameState};
use edrefis::input::{Input, InputProvider, Inputs};
use edrefis::piece::{Piece, Rotation, Rotations};
use edrefis::randomizer::Randomizer;
use edrefis::well::{Block, BlockDirections, Tile, Well, WELL_COLS, WELL_ROWS};

struct Keys {
    down: Vec<Input>,
    just: Vec<Input>,
}

impl InputProvider for Keys {
    fn peek(&mut self) {}
    fn consume(&mut self) {
        self.just.clear();
    }
    fn key_just_pressed(&self, input: Input) -> bool {
        self.just.contains(&input)
    }
    fn key_down(&self, input: Input) -> bool {
        self.down.contains(&input)
    }
}

fn press(keys: &[Input]) -> Inputs {
    let mut inputs = Inputs::new();
    let mut provider = Keys { down: keys.to_vec(), just: keys.to_vec() };
    inputs.tick(1, &mut provider);
    inputs
}

fn tile(color: Block) -> Option<Tile> {
    Some(Tile { color, directions: BlockDirections::none() })
}

fn active(field: &Field) -> Piece {
    match &field.state {
        GameState::ActivePiece { piece } => *piece,
        other => panic!("not active: {:?}", other),
    }
}

#[test]
fn gravity_table() {
    assert_eq!(level_to_gravity(0), 4);
    assert_eq!(level_to_gravity(29), 4);
    assert_eq!(level_to_gravity(30), 6);
    assert_eq!(level_to_gravity(35), 8);
    assert_eq!(level_to_gravity(100), 80);
    assert_eq!(level_to_gravity(199), 144);
    assert_eq!(level_to_gravity(200), 4);
    assert_eq!(level_to_gravity(220), 32);
    assert_eq!(level_to_gravity(251), 256);
    assert_eq!(level_to_gravity(300), 512);
    assert_eq!(level_to_gravity(400), 1280);
    assert_eq!(level_to_gravity(450), 768);
    assert_eq!(level_to_gravity(500), 5120);
    assert_eq!(level_to_gravity(u32::MAX), 5120);
}

#[test]
fn new_field() {
    let f = Field::new();
    assert_eq!(f.level, 0);
    assert_eq!(f.next.color, Block::Orange);
    let p = active(&f);
    assert_eq!(p.color, Block::Cyan);
    assert_eq!(p.rotations, Rotations::TPiece);
    assert!(f.check_wf());
    for r in 0..WELL_ROWS {
        for c in 0..WELL_COLS {
            assert!(f.well.blocks[r][c].is_none());
        }
    }
}

#[test]
fn idle_tick_pays_gravity() {
    let mut f = Field::new();
    let inputs = Inputs::new();
    assert!(f.tick_is_safe(&inputs));
    let events = f.tick(&inputs);
    assert!(events.is_empty());
    let p = active(&f);
    assert_eq!((p.y, p.ticks_to_next_gravity), (0, 252));
}

#[test]
fn debug_key_raises_level() {
    let mut f = Field::new();
    f.tick(&press(&[Input::DebugLevel]));
    assert_eq!(f.level, 50);
}

#[test]
fn drop_land_lock_and_next_piece() {
    let mut f = Field::new();
    let events = f.tick(&press(&[Input::Up]));
    assert_eq!(events, vec![FieldEvent::Land]);
    let p = active(&f);
    assert_eq!((p.y, p.ticks_to_lock), (18, 29));
    let events = f.tick(&press(&[Input::Down]));
    assert_eq!(events, vec![FieldEvent::Lock]);
    assert!(matches!(f.state, GameState::PlaceDelay { ticks_remaining: 30 }));
    assert_eq!(f.well.blocks[20][4].unwrap().color, Block::Cyan);
    let idle = Inputs::new();
    for _ in 0..29 {
        assert!(f.tick(&idle).is_empty());
    }
    assert!(matches!(f.state, GameState::PlaceDelay { ticks_remaining: 1 }));
    let events = f.tick(&idle);
    assert_eq!(events, vec![FieldEvent::BlockSpawn(Block::Purple)]);
    assert_eq!(f.level, 1);
    let p = active(&f);
    assert_eq!(p.color, Block::Orange);
    assert_eq!(p.ticks_to_next_gravity, 252);
    assert_eq!(f.next.color, Block::Purple);
    assert!(f.check_wf());
}

#[test]
fn lock_delay_runs_out() {
    let mut f = Field::new();
    f.tick(&press(&[Input::Up]));
    let idle = Inputs::new();
    let mut ticks = 0;
    while matches!(f.state, GameState::ActivePiece { .. }) {
        let events = f.tick(&idle);
        ticks += 1;
        if matches!(f.state, GameState::PlaceDelay { .. }) {
            assert_eq!(events, vec![FieldEvent::Lock]);
        }
    }
    assert_eq!(ticks, 29);
}

fn line_clear_field() -> Field {
    let mut well = Well::new();
    for c in 0..WELL_COLS {
        if c < 3 || c > 6 {
            well.blocks[20][c] = tile(Block::Green);
        }
    }
    well.blocks[19][0] = tile(Block::Blue);
    let mut piece = Piece::new(Block::Red);
    piece.y = 19;
    piece.ticks_to_lock = 1;
    Field { well, next: Piece::new(Block::Orange), level: 0, state: GameState::ActivePiece { piece }, randomizer: Randomizer::new() }
}

#[test]
fn line_clear_with_cubes() {
    let mut f = line_clear_field();
    assert!(f.check_wf());
    let events = f.tick(&Inputs::new());
    assert_eq!(events.len(), 12);
    assert_eq!(events[0], FieldEvent::Lock);
    assert_eq!(events[1], FieldEvent::LineClear);
    for x in 0..10 {
        let col = 9 - x;
        let color = if (3..=6).contains(&col) { Block::Red } else { Block::Green };
        assert_eq!(events[2 + x], FieldEvent::SpawnCube { x: x as i32, y: 20, color });
    }
    assert_eq!(f.level, 1);
    match &f.state {
        GameState::ClearDelay { ticks_remaining, rows_to_lower } => {
            assert_eq!(*ticks_remaining, 41);
            assert_eq!(rows_to_lower, &vec![20]);
        },
        other => panic!("expected a clear delay, got {:?}", other),
    }
    for c in 0..WELL_COLS {
        assert!(f.well.blocks[20][c].is_none());
    }
    let idle = Inputs::new();
    for _ in 0..40 {
        assert!(f.tick(&idle).is_empty());
    }
    assert!(f.well.blocks[19][0].is_some());
    assert!(f.tick(&idle).is_empty());
    assert!(matches!(f.state, GameState::PlaceDelay { ticks_remaining: 30 }));
    assert_eq!(f.well.blocks[20][0], tile(Block::Blue));
    assert!(f.well.blocks[19][0].is_none());
}

#[test]
fn blocked_spawn_ends_the_game_and_resets() {
    let mut f = Field::new();
    f.state = GameState::PlaceDelay { ticks_remaining: 1 };
    f.well.blocks[1][3] = tile(Block::Red);
    f.level = 199;
    assert!(f.check_wf());
    let events = f.tick(&Inputs::new());
    assert!(events.is_empty());
    assert!(matches!(f.state, GameState::GameOver { ticks_remaining: 300 }));
    assert_eq!(f.level, 199);
    let idle = Inputs::new();
    for _ in 0..299 {
        f.tick(&idle);
    }
    assert!(matches!(f.state, GameState::GameOver { ticks_remaining: 1 }));
    f.tick(&idle);
    assert_eq!(f.level, 0);
    assert!(f.well.blocks[1][3].is_none());
    assert_eq!(f.next.color, Block::Orange);
    assert_eq!(active(&f).color, Block::Cyan);
}

#[test]
fn held_turn_key_turns_the_entering_piece() {
    let mut f = Field::new();
    f.state = GameState::PlaceDelay { ticks_remaining: 1 };
    let events = f.tick(&press(&[Input::CW]));
    assert_eq!(events, vec![FieldEvent::BlockSpawn(Block::Purple)]);
    let p = active(&f);
    assert_eq!(p.rotation, Rotation::R90);
    assert_eq!(p.color, Block::Orange);
}

#[test]
fn level_stops_below_the_next_hundred() {
    let mut f = Field::new();
    f.state = GameState::PlaceDelay { ticks_remaining: 1 };
    f.level = 99;
    f.tick(&Inputs::new());
    assert_eq!(f.level, 99);
}

#[test]
fn unsafe_ticks_are_reported() {
    let mut f = Field::new();
    f.level = u32::MAX - 10;
    assert!(f.tick_is_safe(&Inputs::new()));
    assert!(!f.tick_is_safe(&press(&[Input::DebugLevel])));
    let mut g = Field::new();
    g.state = GameState::PlaceDelay { ticks_remaining: 1 };
    g.randomizer = Randomizer::TTATGM2P { seed: 289805467, history: [0, 0, 0, 0] };
    assert!(!g.tick_is_safe(&Inputs::new()));
    g.state = GameState::PlaceDelay { ticks_remaining: 2 };
    assert!(g.tick_is_safe(&Inputs::new()));
    g.state = GameState::PlaceDelay { ticks_remaining: i32::MIN };
    assert!(!g.tick_is_safe(&Inputs::new()));
    g.state = GameState::ClearDelay { ticks_remaining: 1, rows_to_lower: vec![3, 21] };
    assert!(!g.tick_is_safe(&Inputs::new()));
    g.state = GameState::ClearDelay { ticks_remaining: 2, rows_to_lower: vec![3, 21] };
    assert!(g.tick_is_safe(&Inputs::new()));
    g.state = GameState::GameOver { ticks_remaining: i32::MIN };
    assert!(!g.tick_is_safe(&Inputs::new()));
}

#[test]
fn a_clearing_lock_at_the_top_level_is_unsafe() {
    // A flat I piece resting on the floor, over a bottom row filled but for
    // its four cells: locking it fills the row and raises the level.
    let mut f = Field::new();
    for c in 4..WELL_COLS {
        f.well.blocks[WELL_ROWS - 1][c] = tile(Block::Blue);
    }
    let piece = Piece {
        rotation: Rotation::R0,
        rotations: Rotations::IPiece,
        color: Block::Red,
        x: 0,
        y: WELL_ROWS as i32 - 2,
        ticks_to_next_gravity: 256,
        ticks_to_lock: 1,
    };
    f.state = GameState::ActivePiece { piece };
    f.level = u32::MAX;
    assert!(!f.tick_is_safe(&Inputs::new()));
    f.level = u32::MAX - 1;
    assert!(f.tick_is_safe(&Inputs::new()));
    let events = f.tick(&Inputs::new());
    assert_eq!(f.level, u32::MAX);
    assert!(events.contains(&FieldEvent::LineClear));
}

#[test]
fn fields_outside_the_invariant_still_tick() {
    // The next piece waits off the spawn column: the tick runs all the same.
    let mut f = Field::new();
    f.next.x = 5;
    assert!(!f.check_wf());
    f.state = GameState::ClearDelay { ticks_remaining: 2, rows_to_lower: vec![20] };
    assert!(f.tick_is_safe(&Inputs::new()));
    f.tick(&Inputs::new());
    assert!(matches!(f.state, GameState::ClearDelay { ticks_remaining: 1, .. }));
    f.tick(&Inputs::new());
    assert!(matches!(f.state, GameState::PlaceDelay { ticks_remaining: 30 }));
    f.state = GameState::GameOver { ticks_remaining: 1 };
    f.tick(&Inputs::new());
    assert_eq!(f.next.x, 3);
    assert!(f.check_wf());
}

#[test]
fn invariant_checks() {
    let mut f = Field::new();
    for c in 0..WELL_COLS {
        f.well.blocks[5][c] = tile(Block::Red);
    }
    assert!(!f.check_wf());
    let mut g = Field::new();
    g.next.y = 3;
    assert!(!g.check_wf());
    let mut h = Field::new();
    h.state = GameState::ClearDelay { ticks_remaining: 3, rows_to_lower: vec![21] };
    assert!(!h.check_wf());
    h.state = GameState::ClearDelay { ticks_remaining: 3, rows_to_lower: vec![20] };
    assert!(h.check_wf());
    h.state = GameState::GameOver { ticks_remaining: 0 };
    assert!(!h.check_wf());
    let mut k = Field::new();
    let mut p = active(&k);
    p.x = -5;
    k.state = GameState::ActivePiece { piece: p };
    assert!(!k.check_wf());
}
