use edrefis::input::{Input, InputProvider, Inputs};
use edrefis::piece::{cell_directions, Piece, Rotation, Rotations};
use edrefis::well::{Block, BlockDirections, Tile, Well, WELL_COLS};

struct Keys {
    down: Vec<Input>,
    just: Vec<Input>,
}

impl InputProvider for Keys {
    fn peek(&mut self) {}
    fn consume(&mut self) {
        self.just.clear();
    }
    fn key_just_pressed(&self, input: Input) -> bool {
        self.just.contains(&input)
    }
    fn key_down(&self, input: Input) -> bool {
        self.down.contains(&input)
    }
}

fn press(keys: &[Input]) -> Inputs {
    let mut inputs = Inputs::new();
    let mut provider = Keys { down: keys.to_vec(), just: keys.to_vec() };
    inputs.tick(1, &mut provider);
    inputs
}

fn tile(color: Block) -> Option<Tile> {
    Some(Tile { color, directions: BlockDirections::none() })
}

const ROTATIONS: [Rotation; 4] = [Rotation::R0, Rotation::R90, Rotation::R180, Rotation::R270];

#[test]
fn rotation_turns_are_inverse() {
    for r in ROTATIONS {
        assert_eq!(r.cw().ccw(), r);
        assert_eq!(r.ccw().cw(), r);
        assert_eq!(r.cw().cw().cw().cw(), r);
    }
    assert_eq!(Rotation::R0.cw(), Rotation::R90);
    assert_eq!(Rotation::R0.ccw(), Rotation::R270);
}

#[test]
fn new_piece_kinds_and_spawn() {
    let expected = [
        (Block::Red, Rotations::IPiece),
        (Block::Orange, Rotations::LPiece),
        (Block::Yellow, Rotations::OPiece),
        (Block::Green, Rotations::ZPiece),
        (Block::Cyan, Rotations::TPiece),
        (Block::Blue, Rotations::JPiece),
        (Block::Purple, Rotations::SPiece),
    ];
    for (color, kind) in expected {
        let p = Piece::new(color);
        assert_eq!(p.rotations, kind);
        assert_eq!(p.color, color);
        assert_eq!(p.rotation, Rotation::R0);
        assert_eq!((p.x, p.y), (3, 0));
        assert_eq!(p.ticks_to_lock, 30);
        assert_eq!(p.ticks_to_next_gravity, 256);
    }
}

#[test]
fn piece_maps_have_their_shapes() {
    let i = Rotations::IPiece.piece_map();
    assert_eq!(i.index(Rotation::R0)[1], vec![true, true, true, true]);
    assert_eq!(i.index(Rotation::R90).len(), 4);
    let t = Rotations::TPiece.piece_map();
    assert_eq!(*t.index(Rotation::R0), vec![vec![false, false, false], vec![true, true, true], vec![false, true, false]]);
    assert_eq!(t.index(Rotation::R270)[1], vec![false, true, true]);
}

#[test]
fn collides_with_walls_floor_and_blocks() {
    let well = Well::new();
    let t = Piece::new(Block::Cyan);
    assert!(!t.collides_with(&well, 0, 0, Rotation::R0));
    assert!(!t.collides_with(&well, 0, 18, Rotation::R0));
    assert!(t.collides_with(&well, 0, 19, Rotation::R0));
    assert!(!t.collides_with(&well, -3, 0, Rotation::R0));
    assert!(t.collides_with(&well, -4, 0, Rotation::R0));
    assert!(!t.collides_with(&well, 4, 0, Rotation::R0));
    assert!(t.collides_with(&well, 5, 0, Rotation::R0));
    assert!(!t.collides_with(&well, 0, -2, Rotation::R0));
    let mut blocked = Well::new();
    blocked.blocks[1][3] = tile(Block::Red);
    assert!(t.collides_with(&blocked, 0, 0, Rotation::R0));
    assert!(!t.collides_with(&blocked, 0, 0, Rotation::R270));
}

#[test]
fn sonic_drops_to_the_floor() {
    let well = Well::new();
    let mut t = Piece::new(Block::Cyan);
    t.ticks_to_lock = 12;
    t.do_sonic(&well, &Inputs::new());
    assert_eq!(t.y, 0);
    assert_eq!(t.ticks_to_lock, 12);
    t.do_sonic(&well, &press(&[Input::Up]));
    assert_eq!(t.y, 18);
    assert_eq!(t.ticks_to_lock, 30);
    assert_eq!(t.ticks_to_next_gravity, 256);
    assert!(t.collides_with(&well, 0, 1, t.rotation));
}

#[test]
fn sonic_stops_on_the_stack() {
    let mut well = Well::new();
    well.blocks[10][4] = tile(Block::Red);
    let mut t = Piece::new(Block::Cyan);
    t.do_sonic(&well, &press(&[Input::Up]));
    assert_eq!(t.y, 7);
}

#[test]
fn horizontal_moves_and_walls() {
    let well = Well::new();
    let mut t = Piece::new(Block::Cyan);
    t.do_horizontal(&well, &press(&[Input::Left]));
    assert_eq!(t.x, 2);
    t.do_horizontal(&well, &press(&[Input::Right]));
    assert_eq!(t.x, 3);
    t.x = 0;
    t.do_horizontal(&well, &press(&[Input::Left]));
    assert_eq!(t.x, 0);
    t.do_horizontal(&well, &press(&[Input::Left, Input::Right]));
    assert_eq!(t.x, 0);
}

#[test]
fn horizontal_auto_repeat_after_sixteen_ticks() {
    let well = Well::new();
    let mut inputs = Inputs::new();
    let mut provider = Keys { down: vec![Input::Right], just: vec![Input::Right] };
    let mut t = Piece::new(Block::Cyan);
    let mut moves = vec![];
    for tick in 1..=18u64 {
        inputs.tick(tick, &mut provider);
        let before = t.x;
        t.do_horizontal(&well, &inputs);
        moves.push(t.x - before);
    }
    assert_eq!(moves[0], 1);
    assert!(moves[1..16].iter().all(|m| *m == 0));
    assert_eq!(moves[16], 1);
    assert_eq!(moves[17], 1);
}

#[test]
fn rotate_in_place_and_with_kick() {
    let well = Well::new();
    let mut t = Piece::new(Block::Cyan);
    t.do_rotate(&well, &press(&[Input::CW]));
    assert_eq!(t.rotation, Rotation::R90);
    t.do_rotate(&well, &press(&[Input::CCW]));
    assert_eq!(t.rotation, Rotation::R0);
    let mut i = Piece::new(Block::Red);
    i.rotation = Rotation::R90;
    i.x = 7;
    i.do_rotate(&well, &press(&[Input::CW]));
    assert_eq!(i.rotation, Rotation::R180);
    assert_eq!(i.x, 6);
}

#[test]
fn rotate_blocked_everywhere_stays() {
    let mut well = Well::new();
    for c in 0..WELL_COLS {
        if c != 5 {
            well.blocks[1][c] = tile(Block::Blue);
        }
    }
    let mut i = Piece::new(Block::Red);
    i.rotation = Rotation::R90;
    i.do_rotate(&well, &press(&[Input::CW]));
    assert_eq!(i.rotation, Rotation::R90);
    assert_eq!(i.x, 3);
}

#[test]
fn gravity_pays_by_the_row() {
    let well = Well::new();
    let mut t = Piece::new(Block::Cyan);
    assert!(!t.do_gravity(&well, &Inputs::new(), 4, true));
    assert_eq!((t.y, t.ticks_to_next_gravity, t.ticks_to_lock), (0, 252, 30));
    let mut t = Piece::new(Block::Cyan);
    assert!(!t.do_gravity(&well, &Inputs::new(), 256, true));
    assert_eq!((t.y, t.ticks_to_next_gravity), (1, 256));
    let mut t = Piece::new(Block::Cyan);
    assert!(!t.do_gravity(&well, &press(&[Input::Down]), 4, true));
    assert_eq!((t.y, t.ticks_to_next_gravity), (1, 256));
    let mut t = Piece::new(Block::Cyan);
    assert!(!t.do_gravity(&well, &press(&[Input::Down]), 4, false));
    assert_eq!((t.y, t.ticks_to_next_gravity), (0, 252));
}

#[test]
fn twenty_g_lands_at_once() {
    let well = Well::new();
    let mut t = Piece::new(Block::Cyan);
    assert!(t.do_gravity(&well, &Inputs::new(), 5120, true));
    assert_eq!(t.y, 18);
    assert_eq!(t.ticks_to_lock, 29);
    assert_eq!(t.ticks_to_next_gravity, 256);
    assert!(!t.do_gravity(&well, &Inputs::new(), 5120, true));
    assert_eq!(t.ticks_to_lock, 28);
}

#[test]
fn lock_writes_joined_tiles() {
    let mut well = Well::new();
    let mut t = Piece::new(Block::Cyan);
    t.y = 18;
    t.ticks_to_lock = 5;
    assert!(!t.do_lock(&mut well, &Inputs::new()));
    assert!(well.blocks[19][3].is_none());
    t.ticks_to_lock = 0;
    assert!(t.do_lock(&mut well, &Inputs::new()));
    let bits = |r: usize, c: usize| well.blocks[r][c].unwrap().directions.bits();
    assert_eq!(well.blocks[19][3].unwrap().color, Block::Cyan);
    assert_eq!(bits(19, 3), 1);
    assert_eq!(bits(19, 4), 7);
    assert_eq!(bits(19, 5), 2);
    assert_eq!(bits(20, 4), 8);
    assert!(well.blocks[20][3].is_none());
    assert!(well.blocks[18][4].is_none());
}

#[test]
fn lock_with_down_held() {
    let mut well = Well::new();
    let mut t = Piece::new(Block::Yellow);
    t.y = 18;
    assert!(t.do_lock(&mut well, &press(&[Input::Down])));
    assert!(well.blocks[19][4].is_some());
    assert!(well.blocks[20][5].is_some());
    let mut air = Piece::new(Block::Yellow);
    assert!(!air.do_lock(&mut well, &press(&[Input::Down])));
    air.y = 10;
    assert!(!air.do_lock(&mut well, &press(&[Input::Down])));
}

#[test]
fn cell_directions_of_a_map() {
    let map = Rotations::TPiece.piece_map();
    let r0 = map.index(Rotation::R0);
    assert_eq!(cell_directions(r0, 1, 1).bits(), 7);
    assert_eq!(cell_directions(r0, 2, 1).bits(), 8);
    assert_eq!(cell_directions(r0, 1, 0).bits(), 1);
    assert_eq!(cell_directions(r0, 0, 0).bits(), 4);
}

#[test]
fn gravity_moves_one_row_per_256_units() {
    let well = Well::new();
    let inputs = Inputs::new();
    let mut p = Piece::new(Block::Cyan);
    for k in 1..4 {
        assert!(!p.do_gravity(&well, &inputs, 64, true));
        assert_eq!((p.y, p.ticks_to_next_gravity), (0, 256 - 64 * k));
    }
    p.do_gravity(&well, &inputs, 64, true);
    assert_eq!((p.y, p.ticks_to_next_gravity), (1, 256));
    let mut q = Piece::new(Block::Cyan);
    for _ in 0..2 {
        q.do_gravity(&well, &inputs, 100, true);
        assert_eq!(q.y, 0);
    }
    q.do_gravity(&well, &inputs, 100, true);
    assert_eq!(q.y, 1);
}

#[test]
fn gravity_keeps_its_period_row_after_row() {
    let well = Well::new();
    let inputs = Inputs::new();
    let mut p = Piece::new(Block::Cyan);
    for row in 1..=4 {
        for _ in 0..3 {
            p.do_gravity(&well, &inputs, 100, true);
        }
        assert_eq!((p.y, p.ticks_to_next_gravity, p.x), (row, 256, 3));
    }
}

#[test]
fn filling_cells_keeps_collisions() {
    let empty = Well::new();
    let mut full = Well::new();
    full.blocks[5][4] = tile(Block::Blue);
    let p = Piece::new(Block::Cyan);
    for (dx, dy) in [(0, 0), (0, 3), (-4, 0), (7, 0), (0, 20)] {
        if p.collides_with(&empty, dx, dy, Rotation::R0) {
            assert!(p.collides_with(&full, dx, dy, Rotation::R0));
        }
    }
    assert!(!p.collides_with(&empty, 0, 4, Rotation::R0));
    assert!(p.collides_with(&full, 0, 4, Rotation::R0));
}
