use edrefis::render::{background_index, score_numbers, texture_index, Outline};
use edrefis::well::{Block, BlockDirections, Tile, Well};

#[test]
fn texture_rows() {
    assert_eq!(texture_index(Block::Red), 0);
    assert_eq!(texture_index(Block::Orange), 1);
    assert_eq!(texture_index(Block::Yellow), 2);
    assert_eq!(texture_index(Block::Green), 3);
    assert_eq!(texture_index(Block::Cyan), 4);
    assert_eq!(texture_index(Block::Blue), 5);
    assert_eq!(texture_index(Block::Purple), 6);
}

#[test]
fn backgrounds_by_hundreds() {
    assert_eq!(background_index(0), 0);
    assert_eq!(background_index(99), 0);
    assert_eq!(background_index(100), 1);
    assert_eq!(background_index(999), 9);
    assert_eq!(background_index(1000), 10);
    assert_eq!(background_index(123456), 10);
}

#[test]
fn score_read_out() {
    let s = score_numbers(4, 0);
    assert!(!s.is_20g);
    assert_eq!(s.gravity_amount, 2);
    assert_eq!(s.level, 0);
    assert_eq!(s.level_cap, 100);
    let s = score_numbers(5120, 250);
    assert!(s.is_20g);
    assert_eq!(s.gravity_amount, 20);
    assert_eq!(s.level_cap, 300);
    let s = score_numbers(256, 99);
    assert!(s.is_20g);
    assert_eq!(s.gravity_amount, 1);
    assert_eq!(s.level_cap, 100);
    let s = score_numbers(-5, 0);
    assert!(!s.is_20g);
    assert_eq!(s.gravity_amount, -2);
}

#[test]
fn tiles_join_only_their_own_colour() {
    let mut well = Well::new();
    let right = BlockDirections::new(false, false, false, true);
    let left = BlockDirections::new(false, false, true, false);
    well.blocks[5][2] = Some(Tile { color: Block::Red, directions: right });
    well.blocks[5][3] = Some(Tile { color: Block::Red, directions: left });
    well.blocks[6][2] = Some(Tile { color: Block::Blue, directions: right });
    well.blocks[6][3] = Some(Tile { color: Block::Red, directions: left });
    assert_eq!(well.tile_directions(5, 2).unwrap().bits(), 1);
    assert_eq!(well.tile_directions(5, 3).unwrap().bits(), 2);
    assert_eq!(well.tile_directions(6, 2).unwrap().bits(), 0);
    assert_eq!(well.tile_directions(6, 3).unwrap().bits(), 0);
    assert!(well.tile_directions(0, 0).is_none());
}

#[test]
fn outline_beside_the_stack() {
    let mut well = Well::new();
    well.blocks[20][0] = Some(Tile { color: Block::Red, directions: BlockDirections::none() });
    well.blocks[20][1] = Some(Tile { color: Block::Red, directions: BlockDirections::none() });
    assert!(well.open_beside(20, 0, 0, -1));
    assert!(!well.open_beside(20, 0, 1, 0));
    assert!(!well.open_beside(20, 0, -1, 0));
    assert!(!well.open_beside(20, 0, 0, 1));
    assert!(well.open_beside(20, 1, 1, 0));
}

#[test]
fn outline_strokes_of_a_step() {
    // Row 19: a single tile in column 1, row 20: tiles in columns 0..=2.
    let mut well = Well::new();
    let t = Tile { color: Block::Green, directions: BlockDirections::none() };
    well.blocks[19][1] = Some(t);
    well.blocks[20][0] = Some(t);
    well.blocks[20][1] = Some(t);
    well.blocks[20][2] = Some(t);
    assert!(well.outline(0, 0).is_none());
    assert_eq!(
        well.outline(19, 1),
        Some(Outline {
            top: true,
            bottom: false,
            left: true,
            right: true,
            top_left: false,
            top_right: false,
            bottom_left: false,
            bottom_right: false,
        })
    );
    // Left of the step's base: open above, closed to the right, so the
    // top-right corner dot is not drawn (the top edge is).
    assert_eq!(
        well.outline(20, 0),
        Some(Outline {
            top: true,
            bottom: false,
            left: false,
            right: false,
            top_left: false,
            top_right: false,
            bottom_left: false,
            bottom_right: false,
        })
    );
    // Under the step: all sides closed but the diagonals above are open.
    assert_eq!(
        well.outline(20, 1),
        Some(Outline {
            top: false,
            bottom: false,
            left: false,
            right: false,
            top_left: true,
            top_right: true,
            bottom_left: false,
            bottom_right: false,
        })
    );
}
